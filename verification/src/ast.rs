//! The syntax tree, and what each of its nodes holds as a mathematical value.
use crate::lexer::Span;
use vstd::prelude::*;

verus! {

#[derive(Debug, Clone, Copy, PartialEq, Eq, Structural)]
pub enum VariableKind {
    MutableInferred,
    MutableTyped,
    Immutable,
}

#[derive(Debug, Clone, Copy, PartialEq, Eq, Structural)]
pub enum UnaryOp {
    Negate,
    Not,
    BitwiseNot,
    AddressOf,
    Dereference,
}

#[derive(Debug, Clone, Copy, PartialEq, Eq, Structural)]
pub enum BinaryOp {
    Add,
    Subtract,
    Multiply,
    Divide,
    Modulo,
    Equal,
    NotEqual,
    Less,
    LessEqual,
    Greater,
    GreaterEqual,
    LogicalAnd,
    LogicalOr,
    BitwiseAnd,
    BitwiseOr,
    BitwiseXor,
    ShiftLeft,
    ShiftRight,
}

/// A type as written in a program.
#[allow(inconsistent_fields)]
#[derive(Debug, PartialEq)]
pub enum Type {
    Unit,
    Named(String),
    Array { length: u64, element: Box<Type> },
    Pointer(Box<Type>),
    Slice(Box<Type>),
    /// A tagged result value: exactly one of success or error is active.
    Result { success: Box<Type>, error: Box<Type> },
}

/// What a `Type` holds.
#[allow(inconsistent_fields)]
pub ghost enum TypeView {
    Unit,
    Named(Seq<char>),
    Array { length: u64, element: Box<TypeView> },
    Pointer(Box<TypeView>),
    Slice(Box<TypeView>),
    Result { success: Box<TypeView>, error: Box<TypeView> },
}

impl Type {
    pub open spec fn view(&self) -> TypeView
        decreases self,
    {
        match self {
            Type::Unit => TypeView::Unit,
            Type::Named(inner) => TypeView::Named(inner@),
            Type::Array { length, element } => TypeView::Array {
                length: *length,
                element: Box::new(element.view()),
            },
            Type::Pointer(inner) => TypeView::Pointer(Box::new(inner.view())),
            Type::Slice(inner) => TypeView::Slice(Box::new(inner.view())),
            Type::Result { success, error } => TypeView::Result {
                success: Box::new(success.view()),
                error: Box::new(error.view()),
            },
        }
    }

    /// Whether both hold the same.
    pub fn same(&self, other: &Self) -> (r: bool)
        ensures
            r == (self@ == other@),
        decreases self,
    {
        match (self, other) {
            (Type::Unit, Type::Unit) => true,
            (Type::Named(a), Type::Named(b)) => *a == *b,
            (
                Type::Array { length: a_length, element: a_element },
                Type::Array { length: b_length, element: b_element },
            ) => *a_length == *b_length && a_element.same(b_element),
            (Type::Pointer(a), Type::Pointer(b)) => a.same(b),
            (Type::Slice(a), Type::Slice(b)) => a.same(b),
            (
                Type::Result { success: a_success, error: a_error },
                Type::Result { success: b_success, error: b_error },
            ) => a_success.same(b_success) && a_error.same(b_error),
            _ => false,
        }
    }
}

impl Clone for Type {
    fn clone(&self) -> (r: Self)
        ensures
            r@ == self@,
        decreases self,
    {
        match self {
            Type::Unit => Type::Unit,
            Type::Named(inner) => Type::Named(inner.clone()),
            Type::Array { length, element } => Type::Array {
                length: *length,
                element: Box::new((**element).clone()),
            },
            Type::Pointer(inner) => Type::Pointer(Box::new((**inner).clone())),
            Type::Slice(inner) => Type::Slice(Box::new((**inner).clone())),
            Type::Result { success, error } => Type::Result {
                success: Box::new((**success).clone()),
                error: Box::new((**error).clone()),
            },
        }
    }
}

/// An expression.
/// 
/// A floating-point literal is held as its digits, with the separators taken out.
#[allow(inconsistent_fields)]
#[derive(Debug, PartialEq)]
pub enum Expr {
    Integer { value: i128, span: Span },
    Float { value: String, span: Span },
    Bool { value: bool, span: Span },
    Null { span: Span },
    String { value: String, span: Span },
    SizeOf { ty: Type, span: Span },
    AlignOf { ty: Type, span: Span },
    OffsetOf { ty: Type, field: String, span: Span },
    UncheckedIndex { base: Box<Expr>, index: Box<Expr>, span: Span },
    Identifier { name: String, span: Span },
    StructLiteral { name: String, fields: Vec<StructInit>, span: Span },
    ArrayLiteral { ty: Type, elements: Vec<Expr>, span: Span },
    Field { base: Box<Expr>, name: String, span: Span },
    Index { base: Box<Expr>, index: Box<Expr>, span: Span },
    Unary { operator: UnaryOp, operand: Box<Expr>, span: Span },
    Binary { left: Box<Expr>, operator: BinaryOp, right: Box<Expr>, span: Span },
    Call { callee: Box<Expr>, arguments: Vec<Expr>, span: Span },
    Propagate { expression: Box<Expr>, span: Span },
    /// An expression to evaluate while compiling.
    Comptime { expression: Box<Expr>, span: Span },
}

/// What a `Expr` holds.
#[allow(inconsistent_fields)]
pub ghost enum ExprView {
    Integer { value: i128, span: Span },
    Float { value: Seq<char>, span: Span },
    Bool { value: bool, span: Span },
    Null { span: Span },
    String { value: Seq<char>, span: Span },
    SizeOf { ty: TypeView, span: Span },
    AlignOf { ty: TypeView, span: Span },
    OffsetOf { ty: TypeView, field: Seq<char>, span: Span },
    UncheckedIndex { base: Box<ExprView>, index: Box<ExprView>, span: Span },
    Identifier { name: Seq<char>, span: Span },
    StructLiteral { name: Seq<char>, fields: Seq<StructInitView>, span: Span },
    ArrayLiteral { ty: TypeView, elements: Seq<ExprView>, span: Span },
    Field { base: Box<ExprView>, name: Seq<char>, span: Span },
    Index { base: Box<ExprView>, index: Box<ExprView>, span: Span },
    Unary { operator: UnaryOp, operand: Box<ExprView>, span: Span },
    Binary { left: Box<ExprView>, operator: BinaryOp, right: Box<ExprView>, span: Span },
    Call { callee: Box<ExprView>, arguments: Seq<ExprView>, span: Span },
    Propagate { expression: Box<ExprView>, span: Span },
    Comptime { expression: Box<ExprView>, span: Span },
}

impl Expr {
    pub open spec fn view(&self) -> ExprView
        decreases self,
    {
        match self {
            Expr::Integer { value, span } => ExprView::Integer {
                value: *value,
                span: *span,
            },
            Expr::Float { value, span } => ExprView::Float {
                value: value@,
                span: *span,
            },
            Expr::Bool { value, span } => ExprView::Bool {
                value: *value,
                span: *span,
            },
            Expr::Null { span } => ExprView::Null {
                span: *span,
            },
            Expr::String { value, span } => ExprView::String {
                value: value@,
                span: *span,
            },
            Expr::SizeOf { ty, span } => ExprView::SizeOf {
                ty: ty.view(),
                span: *span,
            },
            Expr::AlignOf { ty, span } => ExprView::AlignOf {
                ty: ty.view(),
                span: *span,
            },
            Expr::OffsetOf { ty, field, span } => ExprView::OffsetOf {
                ty: ty.view(),
                field: field@,
                span: *span,
            },
            Expr::UncheckedIndex { base, index, span } => ExprView::UncheckedIndex {
                base: Box::new(base.view()),
                index: Box::new(index.view()),
                span: *span,
            },
            Expr::Identifier { name, span } => ExprView::Identifier {
                name: name@,
                span: *span,
            },
            Expr::StructLiteral { name, fields, span } => ExprView::StructLiteral {
                name: name@,
                fields: inits_view(fields@),
                span: *span,
            },
            Expr::ArrayLiteral { ty, elements, span } => ExprView::ArrayLiteral {
                ty: ty.view(),
                elements: exprs_view(elements@),
                span: *span,
            },
            Expr::Field { base, name, span } => ExprView::Field {
                base: Box::new(base.view()),
                name: name@,
                span: *span,
            },
            Expr::Index { base, index, span } => ExprView::Index {
                base: Box::new(base.view()),
                index: Box::new(index.view()),
                span: *span,
            },
            Expr::Unary { operator, operand, span } => ExprView::Unary {
                operator: *operator,
                operand: Box::new(operand.view()),
                span: *span,
            },
            Expr::Binary { left, operator, right, span } => ExprView::Binary {
                left: Box::new(left.view()),
                operator: *operator,
                right: Box::new(right.view()),
                span: *span,
            },
            Expr::Call { callee, arguments, span } => ExprView::Call {
                callee: Box::new(callee.view()),
                arguments: exprs_view(arguments@),
                span: *span,
            },
            Expr::Propagate { expression, span } => ExprView::Propagate {
                expression: Box::new(expression.view()),
                span: *span,
            },
            Expr::Comptime { expression, span } => ExprView::Comptime {
                expression: Box::new(expression.view()),
                span: *span,
            },
        }
    }

    /// Whether both hold the same.
    pub fn same(&self, other: &Self) -> (r: bool)
        ensures
            r == (self@ == other@),
        decreases self,
    {
        match (self, other) {
            (
                Expr::Integer { value: a_value, span: a_span },
                Expr::Integer { value: b_value, span: b_span },
            ) => *a_value == *b_value && *a_span == *b_span,
            (
                Expr::Float { value: a_value, span: a_span },
                Expr::Float { value: b_value, span: b_span },
            ) => *a_value == *b_value && *a_span == *b_span,
            (
                Expr::Bool { value: a_value, span: a_span },
                Expr::Bool { value: b_value, span: b_span },
            ) => *a_value == *b_value && *a_span == *b_span,
            (
                Expr::Null { span: a_span },
                Expr::Null { span: b_span },
            ) => *a_span == *b_span,
            (
                Expr::String { value: a_value, span: a_span },
                Expr::String { value: b_value, span: b_span },
            ) => *a_value == *b_value && *a_span == *b_span,
            (
                Expr::SizeOf { ty: a_ty, span: a_span },
                Expr::SizeOf { ty: b_ty, span: b_span },
            ) => a_ty.same(b_ty) && *a_span == *b_span,
            (
                Expr::AlignOf { ty: a_ty, span: a_span },
                Expr::AlignOf { ty: b_ty, span: b_span },
            ) => a_ty.same(b_ty) && *a_span == *b_span,
            (
                Expr::OffsetOf { ty: a_ty, field: a_field, span: a_span },
                Expr::OffsetOf { ty: b_ty, field: b_field, span: b_span },
            ) => a_ty.same(b_ty) && *a_field == *b_field && *a_span == *b_span,
            (
                Expr::UncheckedIndex { base: a_base, index: a_index, span: a_span },
                Expr::UncheckedIndex { base: b_base, index: b_index, span: b_span },
            ) => a_base.same(b_base) && a_index.same(b_index) && *a_span == *b_span,
            (
                Expr::Identifier { name: a_name, span: a_span },
                Expr::Identifier { name: b_name, span: b_span },
            ) => *a_name == *b_name && *a_span == *b_span,
            (
                Expr::StructLiteral { name: a_name, fields: a_fields, span: a_span },
                Expr::StructLiteral { name: b_name, fields: b_fields, span: b_span },
            ) => *a_name == *b_name && inits_same(a_fields, b_fields) && *a_span == *b_span,
            (
                Expr::ArrayLiteral { ty: a_ty, elements: a_elements, span: a_span },
                Expr::ArrayLiteral { ty: b_ty, elements: b_elements, span: b_span },
            ) => a_ty.same(b_ty) && exprs_same(a_elements, b_elements) && *a_span == *b_span,
            (
                Expr::Field { base: a_base, name: a_name, span: a_span },
                Expr::Field { base: b_base, name: b_name, span: b_span },
            ) => a_base.same(b_base) && *a_name == *b_name && *a_span == *b_span,
            (
                Expr::Index { base: a_base, index: a_index, span: a_span },
                Expr::Index { base: b_base, index: b_index, span: b_span },
            ) => a_base.same(b_base) && a_index.same(b_index) && *a_span == *b_span,
            (
                Expr::Unary { operator: a_operator, operand: a_operand, span: a_span },
                Expr::Unary { operator: b_operator, operand: b_operand, span: b_span },
            ) => *a_operator == *b_operator && a_operand.same(b_operand) && *a_span == *b_span,
            (
                Expr::Binary { left: a_left, operator: a_operator, right: a_right, span: a_span },
                Expr::Binary { left: b_left, operator: b_operator, right: b_right, span: b_span },
            ) => a_left.same(b_left) && *a_operator == *b_operator && a_right.same(b_right)
                && *a_span == *b_span,
            (
                Expr::Call { callee: a_callee, arguments: a_arguments, span: a_span },
                Expr::Call { callee: b_callee, arguments: b_arguments, span: b_span },
            ) => a_callee.same(b_callee) && exprs_same(a_arguments, b_arguments)
                && *a_span == *b_span,
            (
                Expr::Propagate { expression: a_expression, span: a_span },
                Expr::Propagate { expression: b_expression, span: b_span },
            ) => a_expression.same(b_expression) && *a_span == *b_span,
            (
                Expr::Comptime { expression: a_expression, span: a_span },
                Expr::Comptime { expression: b_expression, span: b_span },
            ) => a_expression.same(b_expression) && *a_span == *b_span,
            _ => false,
        }
    }
}

impl Clone for Expr {
    fn clone(&self) -> (r: Self)
        ensures
            r@ == self@,
        decreases self,
    {
        match self {
            Expr::Integer { value, span } => Expr::Integer {
                value: *value,
                span: *span,
            },
            Expr::Float { value, span } => Expr::Float {
                value: value.clone(),
                span: *span,
            },
            Expr::Bool { value, span } => Expr::Bool {
                value: *value,
                span: *span,
            },
            Expr::Null { span } => Expr::Null {
                span: *span,
            },
            Expr::String { value, span } => Expr::String {
                value: value.clone(),
                span: *span,
            },
            Expr::SizeOf { ty, span } => Expr::SizeOf {
                ty: ty.clone(),
                span: *span,
            },
            Expr::AlignOf { ty, span } => Expr::AlignOf {
                ty: ty.clone(),
                span: *span,
            },
            Expr::OffsetOf { ty, field, span } => Expr::OffsetOf {
                ty: ty.clone(),
                field: field.clone(),
                span: *span,
            },
            Expr::UncheckedIndex { base, index, span } => Expr::UncheckedIndex {
                base: Box::new((**base).clone()),
                index: Box::new((**index).clone()),
                span: *span,
            },
            Expr::Identifier { name, span } => Expr::Identifier {
                name: name.clone(),
                span: *span,
            },
            Expr::StructLiteral { name, fields, span } => Expr::StructLiteral {
                name: name.clone(),
                fields: inits_clone(fields),
                span: *span,
            },
            Expr::ArrayLiteral { ty, elements, span } => Expr::ArrayLiteral {
                ty: ty.clone(),
                elements: exprs_clone(elements),
                span: *span,
            },
            Expr::Field { base, name, span } => Expr::Field {
                base: Box::new((**base).clone()),
                name: name.clone(),
                span: *span,
            },
            Expr::Index { base, index, span } => Expr::Index {
                base: Box::new((**base).clone()),
                index: Box::new((**index).clone()),
                span: *span,
            },
            Expr::Unary { operator, operand, span } => Expr::Unary {
                operator: *operator,
                operand: Box::new((**operand).clone()),
                span: *span,
            },
            Expr::Binary { left, operator, right, span } => Expr::Binary {
                left: Box::new((**left).clone()),
                operator: *operator,
                right: Box::new((**right).clone()),
                span: *span,
            },
            Expr::Call { callee, arguments, span } => Expr::Call {
                callee: Box::new((**callee).clone()),
                arguments: exprs_clone(arguments),
                span: *span,
            },
            Expr::Propagate { expression, span } => Expr::Propagate {
                expression: Box::new((**expression).clone()),
                span: *span,
            },
            Expr::Comptime { expression, span } => Expr::Comptime {
                expression: Box::new((**expression).clone()),
                span: *span,
            },
        }
    }
}

/// One field of a struct literal.
#[derive(Debug, PartialEq)]
pub struct StructInit {
    pub name: String,
    pub value: Expr,
    pub span: Span,
}

/// What a `StructInit` holds.
pub ghost struct StructInitView {
    pub name: Seq<char>,
    pub value: ExprView,
    pub span: Span,
}

impl StructInit {
    pub open spec fn view(&self) -> StructInitView
        decreases self,
    {
        StructInitView {
            name: self.name@,
            value: self.value.view(),
            span: self.span,
        }
    }

    /// Whether both hold the same.
    pub fn same(&self, other: &Self) -> (r: bool)
        ensures
            r == (self@ == other@),
        decreases self,
    {
        self.name == other.name
            && self.value.same(&other.value)
            && self.span == other.span
    }
}

impl Clone for StructInit {
    fn clone(&self) -> (r: Self)
        ensures
            r@ == self@,
        decreases self,
    {
        StructInit {
            name: self.name.clone(),
            value: self.value.clone(),
            span: self.span,
        }
    }
}

/// A statement.
#[allow(inconsistent_fields)]
#[derive(Debug, PartialEq)]
pub enum Stmt {
    If { condition: Expr, then_branch: Block, else_branch: Option<Block>, span: Span },
    While { condition: Expr, body: Block, span: Span },
    Break { span: Span },
    Continue { span: Span },
    Defer { call: Expr, span: Span },
    Return { value: Option<Expr>, span: Span },
    Variable(VariableDecl),
    Assignment { target: Expr, value: Expr, span: Span },
    Expr { expression: Expr, span: Span },
}

/// What a `Stmt` holds.
#[allow(inconsistent_fields)]
pub ghost enum StmtView {
    If { condition: ExprView, then_branch: BlockView, else_branch: Option<BlockView>, span: Span },
    While { condition: ExprView, body: BlockView, span: Span },
    Break { span: Span },
    Continue { span: Span },
    Defer { call: ExprView, span: Span },
    Return { value: Option<ExprView>, span: Span },
    Variable(VariableDeclView),
    Assignment { target: ExprView, value: ExprView, span: Span },
    Expr { expression: ExprView, span: Span },
}

impl Stmt {
    pub open spec fn view(&self) -> StmtView
        decreases self,
    {
        match self {
            Stmt::If { condition, then_branch, else_branch, span } => StmtView::If {
                condition: condition.view(),
                then_branch: then_branch.view(),
                else_branch: match else_branch { Some(x) => Some(x.view()), None => None },
                span: *span,
            },
            Stmt::While { condition, body, span } => StmtView::While {
                condition: condition.view(),
                body: body.view(),
                span: *span,
            },
            Stmt::Break { span } => StmtView::Break {
                span: *span,
            },
            Stmt::Continue { span } => StmtView::Continue {
                span: *span,
            },
            Stmt::Defer { call, span } => StmtView::Defer {
                call: call.view(),
                span: *span,
            },
            Stmt::Return { value, span } => StmtView::Return {
                value: match value { Some(x) => Some(x.view()), None => None },
                span: *span,
            },
            Stmt::Variable(inner) => StmtView::Variable(inner.view()),
            Stmt::Assignment { target, value, span } => StmtView::Assignment {
                target: target.view(),
                value: value.view(),
                span: *span,
            },
            Stmt::Expr { expression, span } => StmtView::Expr {
                expression: expression.view(),
                span: *span,
            },
        }
    }

    /// Whether both hold the same.
    pub fn same(&self, other: &Self) -> (r: bool)
        ensures
            r == (self@ == other@),
        decreases self,
    {
        match (self, other) {
            (
                Stmt::If { condition: a_condition, then_branch: a_then_branch,
                    else_branch: a_else_branch, span: a_span },
                Stmt::If { condition: b_condition, then_branch: b_then_branch,
                    else_branch: b_else_branch, span: b_span },
            ) => a_condition.same(b_condition) && a_then_branch.same(b_then_branch)
                && (match (a_else_branch, b_else_branch) {
                    (Some(x), Some(y)) => x.same(y),
                    (None, None) => true,
                    _ => false,
                }) && *a_span == *b_span,
            (
                Stmt::While { condition: a_condition, body: a_body, span: a_span },
                Stmt::While { condition: b_condition, body: b_body, span: b_span },
            ) => a_condition.same(b_condition) && a_body.same(b_body) && *a_span == *b_span,
            (
                Stmt::Break { span: a_span },
                Stmt::Break { span: b_span },
            ) => *a_span == *b_span,
            (
                Stmt::Continue { span: a_span },
                Stmt::Continue { span: b_span },
            ) => *a_span == *b_span,
            (
                Stmt::Defer { call: a_call, span: a_span },
                Stmt::Defer { call: b_call, span: b_span },
            ) => a_call.same(b_call) && *a_span == *b_span,
            (
                Stmt::Return { value: a_value, span: a_span },
                Stmt::Return { value: b_value, span: b_span },
            ) => (match (a_value, b_value) {
                (Some(x), Some(y)) => x.same(y),
                (None, None) => true,
                _ => false,
            }) && *a_span == *b_span,
            (Stmt::Variable(a), Stmt::Variable(b)) => a.same(b),
            (
                Stmt::Assignment { target: a_target, value: a_value, span: a_span },
                Stmt::Assignment { target: b_target, value: b_value, span: b_span },
            ) => a_target.same(b_target) && a_value.same(b_value) && *a_span == *b_span,
            (
                Stmt::Expr { expression: a_expression, span: a_span },
                Stmt::Expr { expression: b_expression, span: b_span },
            ) => a_expression.same(b_expression) && *a_span == *b_span,
            _ => false,
        }
    }
}

impl Clone for Stmt {
    fn clone(&self) -> (r: Self)
        ensures
            r@ == self@,
        decreases self,
    {
        match self {
            Stmt::If { condition, then_branch, else_branch, span } => Stmt::If {
                condition: condition.clone(),
                then_branch: then_branch.clone(),
                else_branch: match else_branch { Some(x) => Some(x.clone()), None => None },
                span: *span,
            },
            Stmt::While { condition, body, span } => Stmt::While {
                condition: condition.clone(),
                body: body.clone(),
                span: *span,
            },
            Stmt::Break { span } => Stmt::Break {
                span: *span,
            },
            Stmt::Continue { span } => Stmt::Continue {
                span: *span,
            },
            Stmt::Defer { call, span } => Stmt::Defer {
                call: call.clone(),
                span: *span,
            },
            Stmt::Return { value, span } => Stmt::Return {
                value: match value { Some(x) => Some(x.clone()), None => None },
                span: *span,
            },
            Stmt::Variable(inner) => Stmt::Variable(inner.clone()),
            Stmt::Assignment { target, value, span } => Stmt::Assignment {
                target: target.clone(),
                value: value.clone(),
                span: *span,
            },
            Stmt::Expr { expression, span } => Stmt::Expr {
                expression: expression.clone(),
                span: *span,
            },
        }
    }
}

/// Statements in braces.
#[derive(Debug, PartialEq)]
pub struct Block {
    pub statements: Vec<Stmt>,
    pub span: Span,
}

/// What a `Block` holds.
pub ghost struct BlockView {
    pub statements: Seq<StmtView>,
    pub span: Span,
}

impl Block {
    pub open spec fn view(&self) -> BlockView
        decreases self,
    {
        BlockView {
            statements: stmts_view(self.statements@),
            span: self.span,
        }
    }

    /// Whether both hold the same.
    pub fn same(&self, other: &Self) -> (r: bool)
        ensures
            r == (self@ == other@),
        decreases self,
    {
        stmts_same(&self.statements, &other.statements)
            && self.span == other.span
    }
}

impl Clone for Block {
    fn clone(&self) -> (r: Self)
        ensures
            r@ == self@,
        decreases self,
    {
        Block {
            statements: stmts_clone(&self.statements),
            span: self.span,
        }
    }
}

/// A variable or constant.
#[derive(Debug, PartialEq)]
pub struct VariableDecl {
    pub name: String,
    pub kind: VariableKind,
    pub ty: Option<Type>,
    pub value: Expr,
    pub span: Span,
    pub exported: bool,
}

/// What a `VariableDecl` holds.
pub ghost struct VariableDeclView {
    pub name: Seq<char>,
    pub kind: VariableKind,
    pub ty: Option<TypeView>,
    pub value: ExprView,
    pub span: Span,
    pub exported: bool,
}

impl VariableDecl {
    pub open spec fn view(&self) -> VariableDeclView
        decreases self,
    {
        VariableDeclView {
            name: self.name@,
            kind: self.kind,
            ty: match self.ty { Some(x) => Some(x.view()), None => None },
            value: self.value.view(),
            span: self.span,
            exported: self.exported,
        }
    }

    /// Whether both hold the same.
    pub fn same(&self, other: &Self) -> (r: bool)
        ensures
            r == (self@ == other@),
        decreases self,
    {
        self.name == other.name
            && self.kind == other.kind
            && (match (&self.ty, &other.ty) {
                (Some(x), Some(y)) => x.same(y),
                (None, None) => true,
                _ => false,
            })
            && self.value.same(&other.value)
            && self.span == other.span
            && self.exported == other.exported
    }
}

impl Clone for VariableDecl {
    fn clone(&self) -> (r: Self)
        ensures
            r@ == self@,
        decreases self,
    {
        VariableDecl {
            name: self.name.clone(),
            kind: self.kind,
            ty: match &self.ty { Some(x) => Some(x.clone()), None => None },
            value: self.value.clone(),
            span: self.span,
            exported: self.exported,
        }
    }
}

/// A function's parameter.
#[derive(Debug, PartialEq)]
pub struct Parameter {
    pub name: String,
    pub ty: Type,
    pub span: Span,
}

/// What a `Parameter` holds.
pub ghost struct ParameterView {
    pub name: Seq<char>,
    pub ty: TypeView,
    pub span: Span,
}

impl Parameter {
    pub open spec fn view(&self) -> ParameterView
        decreases self,
    {
        ParameterView {
            name: self.name@,
            ty: self.ty.view(),
            span: self.span,
        }
    }

    /// Whether both hold the same.
    pub fn same(&self, other: &Self) -> (r: bool)
        ensures
            r == (self@ == other@),
        decreases self,
    {
        self.name == other.name
            && self.ty.same(&other.ty)
            && self.span == other.span
    }
}

impl Clone for Parameter {
    fn clone(&self) -> (r: Self)
        ensures
            r@ == self@,
        decreases self,
    {
        Parameter {
            name: self.name.clone(),
            ty: self.ty.clone(),
            span: self.span,
        }
    }
}

/// A type parameter, written `T: type`.
#[derive(Debug, PartialEq)]
pub struct GenericParam {
    pub name: String,
    pub span: Span,
}

/// What a `GenericParam` holds.
pub ghost struct GenericParamView {
    pub name: Seq<char>,
    pub span: Span,
}

impl GenericParam {
    pub open spec fn view(&self) -> GenericParamView
        decreases self,
    {
        GenericParamView {
            name: self.name@,
            span: self.span,
        }
    }

    /// Whether both hold the same.
    pub fn same(&self, other: &Self) -> (r: bool)
        ensures
            r == (self@ == other@),
        decreases self,
    {
        self.name == other.name
            && self.span == other.span
    }
}

impl Clone for GenericParam {
    fn clone(&self) -> (r: Self)
        ensures
            r@ == self@,
        decreases self,
    {
        GenericParam {
            name: self.name.clone(),
            span: self.span,
        }
    }
}

/// A function.
#[derive(Debug, PartialEq)]
pub struct FunctionDecl {
    pub name: String,
    pub generic_params: Vec<GenericParam>,
    pub params: Vec<Parameter>,
    pub return_type: Type,
    pub body: Block,
    pub span: Span,
    /// A foreign declaration has no source body.
    pub is_extern: bool,
    pub abi: Option<String>,
    /// The symbol name, where it differs from the name in the source.
    pub link_name: Option<String>,
    pub exported: bool,
}

/// What a `FunctionDecl` holds.
pub ghost struct FunctionDeclView {
    pub name: Seq<char>,
    pub generic_params: Seq<GenericParamView>,
    pub params: Seq<ParameterView>,
    pub return_type: TypeView,
    pub body: BlockView,
    pub span: Span,
    pub is_extern: bool,
    pub abi: Option<Seq<char>>,
    pub link_name: Option<Seq<char>>,
    pub exported: bool,
}

impl FunctionDecl {
    pub open spec fn view(&self) -> FunctionDeclView
        decreases self,
    {
        FunctionDeclView {
            name: self.name@,
            generic_params: generics_view(self.generic_params@),
            params: parameters_view(self.params@),
            return_type: self.return_type.view(),
            body: self.body.view(),
            span: self.span,
            is_extern: self.is_extern,
            abi: match self.abi { Some(x) => Some(x@), None => None },
            link_name: match self.link_name { Some(x) => Some(x@), None => None },
            exported: self.exported,
        }
    }

    /// Whether both hold the same.
    pub fn same(&self, other: &Self) -> (r: bool)
        ensures
            r == (self@ == other@),
        decreases self,
    {
        self.name == other.name
            && generics_same(&self.generic_params, &other.generic_params)
            && parameters_same(&self.params, &other.params)
            && self.return_type.same(&other.return_type)
            && self.body.same(&other.body)
            && self.span == other.span
            && self.is_extern == other.is_extern
            && (match (&self.abi, &other.abi) {
                (Some(x), Some(y)) => *x == *y,
                (None, None) => true,
                _ => false,
            })
            && (match (&self.link_name, &other.link_name) {
                (Some(x), Some(y)) => *x == *y,
                (None, None) => true,
                _ => false,
            })
            && self.exported == other.exported
    }
}

impl Clone for FunctionDecl {
    fn clone(&self) -> (r: Self)
        ensures
            r@ == self@,
        decreases self,
    {
        FunctionDecl {
            name: self.name.clone(),
            generic_params: generics_clone(&self.generic_params),
            params: parameters_clone(&self.params),
            return_type: self.return_type.clone(),
            body: self.body.clone(),
            span: self.span,
            is_extern: self.is_extern,
            abi: match &self.abi { Some(x) => Some(x.clone()), None => None },
            link_name: match &self.link_name { Some(x) => Some(x.clone()), None => None },
            exported: self.exported,
        }
    }
}

/// A field of a struct.
#[derive(Debug, PartialEq)]
pub struct StructField {
    pub name: String,
    pub ty: Type,
    pub span: Span,
}

/// What a `StructField` holds.
pub ghost struct StructFieldView {
    pub name: Seq<char>,
    pub ty: TypeView,
    pub span: Span,
}

impl StructField {
    pub open spec fn view(&self) -> StructFieldView
        decreases self,
    {
        StructFieldView {
            name: self.name@,
            ty: self.ty.view(),
            span: self.span,
        }
    }

    /// Whether both hold the same.
    pub fn same(&self, other: &Self) -> (r: bool)
        ensures
            r == (self@ == other@),
        decreases self,
    {
        self.name == other.name
            && self.ty.same(&other.ty)
            && self.span == other.span
    }
}

impl Clone for StructField {
    fn clone(&self) -> (r: Self)
        ensures
            r@ == self@,
        decreases self,
    {
        StructField {
            name: self.name.clone(),
            ty: self.ty.clone(),
            span: self.span,
        }
    }
}

/// A struct.
#[derive(Debug, PartialEq)]
pub struct StructDecl {
    pub name: String,
    pub generic_params: Vec<GenericParam>,
    pub fields: Vec<StructField>,
    pub span: Span,
    pub exported: bool,
}

/// What a `StructDecl` holds.
pub ghost struct StructDeclView {
    pub name: Seq<char>,
    pub generic_params: Seq<GenericParamView>,
    pub fields: Seq<StructFieldView>,
    pub span: Span,
    pub exported: bool,
}

impl StructDecl {
    pub open spec fn view(&self) -> StructDeclView
        decreases self,
    {
        StructDeclView {
            name: self.name@,
            generic_params: generics_view(self.generic_params@),
            fields: fields_view(self.fields@),
            span: self.span,
            exported: self.exported,
        }
    }

    /// Whether both hold the same.
    pub fn same(&self, other: &Self) -> (r: bool)
        ensures
            r == (self@ == other@),
        decreases self,
    {
        self.name == other.name
            && generics_same(&self.generic_params, &other.generic_params)
            && fields_same(&self.fields, &other.fields)
            && self.span == other.span
            && self.exported == other.exported
    }
}

impl Clone for StructDecl {
    fn clone(&self) -> (r: Self)
        ensures
            r@ == self@,
        decreases self,
    {
        StructDecl {
            name: self.name.clone(),
            generic_params: generics_clone(&self.generic_params),
            fields: fields_clone(&self.fields),
            span: self.span,
            exported: self.exported,
        }
    }
}

/// A declaration at the top level of a module.
#[allow(inconsistent_fields)]
#[derive(Debug, PartialEq)]
pub enum Decl {
    Function(FunctionDecl),
    Variable(VariableDecl),
    Struct(StructDecl),
    /// An expression to evaluate while compiling, for what it checks or generates.
    Comptime { expression: Expr, span: Span },
}

/// What a `Decl` holds.
#[allow(inconsistent_fields)]
pub ghost enum DeclView {
    Function(FunctionDeclView),
    Variable(VariableDeclView),
    Struct(StructDeclView),
    Comptime { expression: ExprView, span: Span },
}

impl Decl {
    pub open spec fn view(&self) -> DeclView
        decreases self,
    {
        match self {
            Decl::Function(inner) => DeclView::Function(inner.view()),
            Decl::Variable(inner) => DeclView::Variable(inner.view()),
            Decl::Struct(inner) => DeclView::Struct(inner.view()),
            Decl::Comptime { expression, span } => DeclView::Comptime {
                expression: expression.view(),
                span: *span,
            },
        }
    }

    /// Whether both hold the same.
    pub fn same(&self, other: &Self) -> (r: bool)
        ensures
            r == (self@ == other@),
        decreases self,
    {
        match (self, other) {
            (Decl::Function(a), Decl::Function(b)) => a.same(b),
            (Decl::Variable(a), Decl::Variable(b)) => a.same(b),
            (Decl::Struct(a), Decl::Struct(b)) => a.same(b),
            (
                Decl::Comptime { expression: a_expression, span: a_span },
                Decl::Comptime { expression: b_expression, span: b_span },
            ) => a_expression.same(b_expression) && *a_span == *b_span,
            _ => false,
        }
    }
}

impl Clone for Decl {
    fn clone(&self) -> (r: Self)
        ensures
            r@ == self@,
        decreases self,
    {
        match self {
            Decl::Function(inner) => Decl::Function(inner.clone()),
            Decl::Variable(inner) => Decl::Variable(inner.clone()),
            Decl::Struct(inner) => Decl::Struct(inner.clone()),
            Decl::Comptime { expression, span } => Decl::Comptime {
                expression: expression.clone(),
                span: *span,
            },
        }
    }
}

/// An import of another module.
#[derive(Debug, PartialEq)]
pub struct ImportDecl {
    /// A path such as `os` or `os.compy`, relative to the importing file.
    pub path: String,
    /// The name that qualifies what is imported.
    pub alias: String,
    pub span: Span,
}

/// What a `ImportDecl` holds.
pub ghost struct ImportDeclView {
    pub path: Seq<char>,
    pub alias: Seq<char>,
    pub span: Span,
}

impl ImportDecl {
    pub open spec fn view(&self) -> ImportDeclView
        decreases self,
    {
        ImportDeclView {
            path: self.path@,
            alias: self.alias@,
            span: self.span,
        }
    }
}

impl Clone for ImportDecl {
    fn clone(&self) -> (r: Self)
        ensures
            r@ == self@,
        decreases self,
    {
        ImportDecl {
            path: self.path.clone(),
            alias: self.alias.clone(),
            span: self.span,
        }
    }
}

/// A module, or several modules resolved into one.
#[derive(Debug, PartialEq)]
pub struct Program {
    pub imports: Vec<ImportDecl>,
    pub declarations: Vec<Decl>,
}

/// What a `Program` holds.
pub ghost struct ProgramView {
    pub imports: Seq<ImportDeclView>,
    pub declarations: Seq<DeclView>,
}

impl Program {
    pub open spec fn view(&self) -> ProgramView
        decreases self,
    {
        ProgramView {
            imports: imports_view(self.imports@),
            declarations: decls_view(self.declarations@),
        }
    }
}

impl Clone for Program {
    fn clone(&self) -> (r: Self)
        ensures
            r@ == self@,
        decreases self,
    {
        Program {
            imports: imports_clone(&self.imports),
            declarations: decls_clone(&self.declarations),
        }
    }
}

impl ExprView {
    /// Where the expression stands in its source.
    pub open spec fn span(self) -> Span {
        match self {
            ExprView::Integer { span, .. } => span,
            ExprView::Float { span, .. } => span,
            ExprView::Bool { span, .. } => span,
            ExprView::Null { span, .. } => span,
            ExprView::String { span, .. } => span,
            ExprView::SizeOf { span, .. } => span,
            ExprView::AlignOf { span, .. } => span,
            ExprView::OffsetOf { span, .. } => span,
            ExprView::UncheckedIndex { span, .. } => span,
            ExprView::Identifier { span, .. } => span,
            ExprView::StructLiteral { span, .. } => span,
            ExprView::ArrayLiteral { span, .. } => span,
            ExprView::Field { span, .. } => span,
            ExprView::Index { span, .. } => span,
            ExprView::Unary { span, .. } => span,
            ExprView::Binary { span, .. } => span,
            ExprView::Call { span, .. } => span,
            ExprView::Propagate { span, .. } => span,
            ExprView::Comptime { span, .. } => span,
        }
    }
}

impl Expr {
    /// Where the expression stands in its source.
    pub fn span(&self) -> (r: Span)
        ensures
            r == self@.span(),
    {
        match self {
            Expr::Integer { span, .. } => *span,
            Expr::Float { span, .. } => *span,
            Expr::Bool { span, .. } => *span,
            Expr::Null { span, .. } => *span,
            Expr::String { span, .. } => *span,
            Expr::SizeOf { span, .. } => *span,
            Expr::AlignOf { span, .. } => *span,
            Expr::OffsetOf { span, .. } => *span,
            Expr::UncheckedIndex { span, .. } => *span,
            Expr::Identifier { span, .. } => *span,
            Expr::StructLiteral { span, .. } => *span,
            Expr::ArrayLiteral { span, .. } => *span,
            Expr::Field { span, .. } => *span,
            Expr::Index { span, .. } => *span,
            Expr::Unary { span, .. } => *span,
            Expr::Binary { span, .. } => *span,
            Expr::Call { span, .. } => *span,
            Expr::Propagate { span, .. } => *span,
            Expr::Comptime { span, .. } => *span,
        }
    }
}

/// What a list of `Type` holds.
pub open spec fn types_view(s: Seq<Type>) -> Seq<TypeView>
    decreases s,
{
    Seq::new(
        s.len(),
        |i: int|
            if 0 <= i < s.len() {
                s[i].view()
            } else {
                arbitrary()
            },
    )
}

pub broadcast proof fn lemma_types_push(s: Seq<Type>, x: Type)
    ensures
        #[trigger] types_view(s.push(x)) == types_view(s).push(x@),
{
    assert(types_view(s.push(x)) =~= types_view(s).push(x@));
}

/// Whether two lists hold the same.
pub fn types_same(a: &Vec<Type>, b: &Vec<Type>) -> (r: bool)
    ensures
        r == (types_view(a@) == types_view(b@)),
    decreases a,
{
    if a.len() != b.len() {
        assert(types_view(a@).len() != types_view(b@).len());
        return false;
    }
    for i in 0..a.len()
        invariant
            a.len() == b.len(),
            forall|j: int| 0 <= j < i ==> (#[trigger] types_view(a@)[j]) == types_view(b@)[j],
    {
        if !a[i].same(&b[i]) {
            assert(types_view(a@)[i as int] != types_view(b@)[i as int]);
            return false;
        }
    }
    assert(types_view(a@) =~= types_view(b@));
    true
}

/// What a list of `Expr` holds.
pub open spec fn exprs_view(s: Seq<Expr>) -> Seq<ExprView>
    decreases s,
{
    Seq::new(
        s.len(),
        |i: int|
            if 0 <= i < s.len() {
                s[i].view()
            } else {
                arbitrary()
            },
    )
}

pub broadcast proof fn lemma_exprs_push(s: Seq<Expr>, x: Expr)
    ensures
        #[trigger] exprs_view(s.push(x)) == exprs_view(s).push(x@),
{
    assert(exprs_view(s.push(x)) =~= exprs_view(s).push(x@));
}

pub fn exprs_clone(v: &Vec<Expr>) -> (r: Vec<Expr>)
    ensures
        exprs_view(r@) == exprs_view(v@),
    decreases v,
{
    let mut out: Vec<Expr> = Vec::new();
    for i in 0..v.len()
        invariant
            out.len() == i,
            forall|j: int| 0 <= j < i ==> (#[trigger] out@[j])@ == v@[j]@,
    {
        out.push(v[i].clone());
    }
    assert(exprs_view(out@) =~= exprs_view(v@));
    out
}

/// Whether two lists hold the same.
pub fn exprs_same(a: &Vec<Expr>, b: &Vec<Expr>) -> (r: bool)
    ensures
        r == (exprs_view(a@) == exprs_view(b@)),
    decreases a,
{
    if a.len() != b.len() {
        assert(exprs_view(a@).len() != exprs_view(b@).len());
        return false;
    }
    for i in 0..a.len()
        invariant
            a.len() == b.len(),
            forall|j: int| 0 <= j < i ==> (#[trigger] exprs_view(a@)[j]) == exprs_view(b@)[j],
    {
        if !a[i].same(&b[i]) {
            assert(exprs_view(a@)[i as int] != exprs_view(b@)[i as int]);
            return false;
        }
    }
    assert(exprs_view(a@) =~= exprs_view(b@));
    true
}

/// What a list of `StructInit` holds.
pub open spec fn inits_view(s: Seq<StructInit>) -> Seq<StructInitView>
    decreases s,
{
    Seq::new(
        s.len(),
        |i: int|
            if 0 <= i < s.len() {
                s[i].view()
            } else {
                arbitrary()
            },
    )
}

pub broadcast proof fn lemma_inits_push(s: Seq<StructInit>, x: StructInit)
    ensures
        #[trigger] inits_view(s.push(x)) == inits_view(s).push(x@),
{
    assert(inits_view(s.push(x)) =~= inits_view(s).push(x@));
}

pub fn inits_clone(v: &Vec<StructInit>) -> (r: Vec<StructInit>)
    ensures
        inits_view(r@) == inits_view(v@),
    decreases v,
{
    let mut out: Vec<StructInit> = Vec::new();
    for i in 0..v.len()
        invariant
            out.len() == i,
            forall|j: int| 0 <= j < i ==> (#[trigger] out@[j])@ == v@[j]@,
    {
        out.push(v[i].clone());
    }
    assert(inits_view(out@) =~= inits_view(v@));
    out
}

/// Whether two lists hold the same.
pub fn inits_same(a: &Vec<StructInit>, b: &Vec<StructInit>) -> (r: bool)
    ensures
        r == (inits_view(a@) == inits_view(b@)),
    decreases a,
{
    if a.len() != b.len() {
        assert(inits_view(a@).len() != inits_view(b@).len());
        return false;
    }
    for i in 0..a.len()
        invariant
            a.len() == b.len(),
            forall|j: int| 0 <= j < i ==> (#[trigger] inits_view(a@)[j]) == inits_view(b@)[j],
    {
        if !a[i].same(&b[i]) {
            assert(inits_view(a@)[i as int] != inits_view(b@)[i as int]);
            return false;
        }
    }
    assert(inits_view(a@) =~= inits_view(b@));
    true
}

/// What a list of `Stmt` holds.
pub open spec fn stmts_view(s: Seq<Stmt>) -> Seq<StmtView>
    decreases s,
{
    Seq::new(
        s.len(),
        |i: int|
            if 0 <= i < s.len() {
                s[i].view()
            } else {
                arbitrary()
            },
    )
}

pub broadcast proof fn lemma_stmts_push(s: Seq<Stmt>, x: Stmt)
    ensures
        #[trigger] stmts_view(s.push(x)) == stmts_view(s).push(x@),
{
    assert(stmts_view(s.push(x)) =~= stmts_view(s).push(x@));
}

pub fn stmts_clone(v: &Vec<Stmt>) -> (r: Vec<Stmt>)
    ensures
        stmts_view(r@) == stmts_view(v@),
    decreases v,
{
    let mut out: Vec<Stmt> = Vec::new();
    for i in 0..v.len()
        invariant
            out.len() == i,
            forall|j: int| 0 <= j < i ==> (#[trigger] out@[j])@ == v@[j]@,
    {
        out.push(v[i].clone());
    }
    assert(stmts_view(out@) =~= stmts_view(v@));
    out
}

/// Whether two lists hold the same.
pub fn stmts_same(a: &Vec<Stmt>, b: &Vec<Stmt>) -> (r: bool)
    ensures
        r == (stmts_view(a@) == stmts_view(b@)),
    decreases a,
{
    if a.len() != b.len() {
        assert(stmts_view(a@).len() != stmts_view(b@).len());
        return false;
    }
    for i in 0..a.len()
        invariant
            a.len() == b.len(),
            forall|j: int| 0 <= j < i ==> (#[trigger] stmts_view(a@)[j]) == stmts_view(b@)[j],
    {
        if !a[i].same(&b[i]) {
            assert(stmts_view(a@)[i as int] != stmts_view(b@)[i as int]);
            return false;
        }
    }
    assert(stmts_view(a@) =~= stmts_view(b@));
    true
}

/// What a list of `Decl` holds.
pub open spec fn decls_view(s: Seq<Decl>) -> Seq<DeclView>
    decreases s,
{
    Seq::new(
        s.len(),
        |i: int|
            if 0 <= i < s.len() {
                s[i].view()
            } else {
                arbitrary()
            },
    )
}

pub broadcast proof fn lemma_decls_push(s: Seq<Decl>, x: Decl)
    ensures
        #[trigger] decls_view(s.push(x)) == decls_view(s).push(x@),
{
    assert(decls_view(s.push(x)) =~= decls_view(s).push(x@));
}

pub fn decls_clone(v: &Vec<Decl>) -> (r: Vec<Decl>)
    ensures
        decls_view(r@) == decls_view(v@),
    decreases v,
{
    let mut out: Vec<Decl> = Vec::new();
    for i in 0..v.len()
        invariant
            out.len() == i,
            forall|j: int| 0 <= j < i ==> (#[trigger] out@[j])@ == v@[j]@,
    {
        out.push(v[i].clone());
    }
    assert(decls_view(out@) =~= decls_view(v@));
    out
}

/// What a list of `ImportDecl` holds.
pub open spec fn imports_view(s: Seq<ImportDecl>) -> Seq<ImportDeclView>
    decreases s,
{
    Seq::new(
        s.len(),
        |i: int|
            if 0 <= i < s.len() {
                s[i].view()
            } else {
                arbitrary()
            },
    )
}

pub broadcast proof fn lemma_imports_push(s: Seq<ImportDecl>, x: ImportDecl)
    ensures
        #[trigger] imports_view(s.push(x)) == imports_view(s).push(x@),
{
    assert(imports_view(s.push(x)) =~= imports_view(s).push(x@));
}

pub fn imports_clone(v: &Vec<ImportDecl>) -> (r: Vec<ImportDecl>)
    ensures
        imports_view(r@) == imports_view(v@),
    decreases v,
{
    let mut out: Vec<ImportDecl> = Vec::new();
    for i in 0..v.len()
        invariant
            out.len() == i,
            forall|j: int| 0 <= j < i ==> (#[trigger] out@[j])@ == v@[j]@,
    {
        out.push(v[i].clone());
    }
    assert(imports_view(out@) =~= imports_view(v@));
    out
}

/// What a list of `StructField` holds.
pub open spec fn fields_view(s: Seq<StructField>) -> Seq<StructFieldView>
    decreases s,
{
    Seq::new(
        s.len(),
        |i: int|
            if 0 <= i < s.len() {
                s[i].view()
            } else {
                arbitrary()
            },
    )
}

pub broadcast proof fn lemma_fields_push(s: Seq<StructField>, x: StructField)
    ensures
        #[trigger] fields_view(s.push(x)) == fields_view(s).push(x@),
{
    assert(fields_view(s.push(x)) =~= fields_view(s).push(x@));
}

pub fn fields_clone(v: &Vec<StructField>) -> (r: Vec<StructField>)
    ensures
        fields_view(r@) == fields_view(v@),
    decreases v,
{
    let mut out: Vec<StructField> = Vec::new();
    for i in 0..v.len()
        invariant
            out.len() == i,
            forall|j: int| 0 <= j < i ==> (#[trigger] out@[j])@ == v@[j]@,
    {
        out.push(v[i].clone());
    }
    assert(fields_view(out@) =~= fields_view(v@));
    out
}

/// Whether two lists hold the same.
pub fn fields_same(a: &Vec<StructField>, b: &Vec<StructField>) -> (r: bool)
    ensures
        r == (fields_view(a@) == fields_view(b@)),
    decreases a,
{
    if a.len() != b.len() {
        assert(fields_view(a@).len() != fields_view(b@).len());
        return false;
    }
    for i in 0..a.len()
        invariant
            a.len() == b.len(),
            forall|j: int| 0 <= j < i ==> (#[trigger] fields_view(a@)[j]) == fields_view(b@)[j],
    {
        if !a[i].same(&b[i]) {
            assert(fields_view(a@)[i as int] != fields_view(b@)[i as int]);
            return false;
        }
    }
    assert(fields_view(a@) =~= fields_view(b@));
    true
}

/// What a list of `Parameter` holds.
pub open spec fn parameters_view(s: Seq<Parameter>) -> Seq<ParameterView>
    decreases s,
{
    Seq::new(
        s.len(),
        |i: int|
            if 0 <= i < s.len() {
                s[i].view()
            } else {
                arbitrary()
            },
    )
}

pub broadcast proof fn lemma_parameters_push(s: Seq<Parameter>, x: Parameter)
    ensures
        #[trigger] parameters_view(s.push(x)) == parameters_view(s).push(x@),
{
    assert(parameters_view(s.push(x)) =~= parameters_view(s).push(x@));
}

pub fn parameters_clone(v: &Vec<Parameter>) -> (r: Vec<Parameter>)
    ensures
        parameters_view(r@) == parameters_view(v@),
    decreases v,
{
    let mut out: Vec<Parameter> = Vec::new();
    for i in 0..v.len()
        invariant
            out.len() == i,
            forall|j: int| 0 <= j < i ==> (#[trigger] out@[j])@ == v@[j]@,
    {
        out.push(v[i].clone());
    }
    assert(parameters_view(out@) =~= parameters_view(v@));
    out
}

/// Whether two lists hold the same.
pub fn parameters_same(a: &Vec<Parameter>, b: &Vec<Parameter>) -> (r: bool)
    ensures
        r == (parameters_view(a@) == parameters_view(b@)),
    decreases a,
{
    if a.len() != b.len() {
        assert(parameters_view(a@).len() != parameters_view(b@).len());
        return false;
    }
    for i in 0..a.len()
        invariant
            a.len() == b.len(),
            forall|j: int| 0 <= j < i
                ==> (#[trigger] parameters_view(a@)[j]) == parameters_view(b@)[j],
    {
        if !a[i].same(&b[i]) {
            assert(parameters_view(a@)[i as int] != parameters_view(b@)[i as int]);
            return false;
        }
    }
    assert(parameters_view(a@) =~= parameters_view(b@));
    true
}

/// What a list of `GenericParam` holds.
pub open spec fn generics_view(s: Seq<GenericParam>) -> Seq<GenericParamView>
    decreases s,
{
    Seq::new(
        s.len(),
        |i: int|
            if 0 <= i < s.len() {
                s[i].view()
            } else {
                arbitrary()
            },
    )
}

pub broadcast proof fn lemma_generics_push(s: Seq<GenericParam>, x: GenericParam)
    ensures
        #[trigger] generics_view(s.push(x)) == generics_view(s).push(x@),
{
    assert(generics_view(s.push(x)) =~= generics_view(s).push(x@));
}

pub fn generics_clone(v: &Vec<GenericParam>) -> (r: Vec<GenericParam>)
    ensures
        generics_view(r@) == generics_view(v@),
    decreases v,
{
    let mut out: Vec<GenericParam> = Vec::new();
    for i in 0..v.len()
        invariant
            out.len() == i,
            forall|j: int| 0 <= j < i ==> (#[trigger] out@[j])@ == v@[j]@,
    {
        out.push(v[i].clone());
    }
    assert(generics_view(out@) =~= generics_view(v@));
    out
}

/// Whether two lists hold the same.
pub fn generics_same(a: &Vec<GenericParam>, b: &Vec<GenericParam>) -> (r: bool)
    ensures
        r == (generics_view(a@) == generics_view(b@)),
    decreases a,
{
    if a.len() != b.len() {
        assert(generics_view(a@).len() != generics_view(b@).len());
        return false;
    }
    for i in 0..a.len()
        invariant
            a.len() == b.len(),
            forall|j: int| 0 <= j < i ==> (#[trigger] generics_view(a@)[j]) == generics_view(b@)[j],
    {
        if !a[i].same(&b[i]) {
            assert(generics_view(a@)[i as int] != generics_view(b@)[i as int]);
            return false;
        }
    }
    assert(generics_view(a@) =~= generics_view(b@));
    true
}

pub broadcast group group_ast_lists {
    lemma_types_push,
    lemma_exprs_push,
    lemma_inits_push,
    lemma_stmts_push,
    lemma_decls_push,
    lemma_imports_push,
    lemma_fields_push,
    lemma_parameters_push,
    lemma_generics_push,
}

} // verus!
