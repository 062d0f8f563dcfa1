//! The commands that build machine code, as plain data.
use crate::lexer::{show_span, span_text, Span};
use crate::text::joined;
use crate::typed::DefId;
use vstd::prelude::*;

verus! {

/// A type of values in machine code. A slice is a pointer and a length of so
/// many bits; an outcome is a tag of one bit and two values.
#[derive(Debug, PartialEq, Eq)]
pub enum LowType {
    Int(u32),
    Float(u16),
    Pointer,
    Named(DefId),
    Array { length: u32, element: Box<LowType> },
    Slice(u32),
    Outcome { success: Box<LowType>, error: Box<LowType> },
}

impl Clone for LowType {
    fn clone(&self) -> (r: Self)
        ensures
            r == *self,
        decreases self,
    {
        match self {
            LowType::Int(bits) => LowType::Int(*bits),
            LowType::Float(bits) => LowType::Float(*bits),
            LowType::Pointer => LowType::Pointer,
            LowType::Named(id) => LowType::Named(*id),
            LowType::Array { length, element } => LowType::Array {
                length: *length,
                element: Box::new((**element).clone()),
            },
            LowType::Slice(bits) => LowType::Slice(*bits),
            LowType::Outcome { success, error } => LowType::Outcome {
                success: Box::new((**success).clone()),
                error: Box::new((**error).clone()),
            },
        }
    }
}

impl LowType {
    /// Whether both are the same type.
    pub fn same(&self, other: &Self) -> (r: bool)
        ensures
            r == (*self == *other),
        decreases self,
    {
        match (self, other) {
            (LowType::Int(a), LowType::Int(b)) => *a == *b,
            (LowType::Float(a), LowType::Float(b)) => *a == *b,
            (LowType::Pointer, LowType::Pointer) => true,
            (LowType::Named(a), LowType::Named(b)) => *a == *b,
            (
                LowType::Array { length: n, element: a },
                LowType::Array { length: m, element: b },
            ) => *n == *m && a.same(b),
            (LowType::Slice(a), LowType::Slice(b)) => *a == *b,
            (
                LowType::Outcome { success: a, error: e },
                LowType::Outcome { success: b, error: f },
            ) => a.same(b) && e.same(f),
            _ => false,
        }
    }

    pub fn is_int(&self) -> (r: bool)
        ensures
            r == (self is Int),
    {
        match self {
            LowType::Int(_) => true,
            _ => false,
        }
    }

    pub fn is_float(&self) -> (r: bool)
        ensures
            r == (self is Float),
    {
        match self {
            LowType::Float(_) => true,
            _ => false,
        }
    }

    pub fn is_pointer(&self) -> (r: bool)
        ensures
            r == (self is Pointer),
    {
        match self {
            LowType::Pointer => true,
            _ => false,
        }
    }
}

pub fn low_types_clone(v: &Vec<LowType>) -> (r: Vec<LowType>)
    ensures
        r@ == v@,
{
    let mut out: Vec<LowType> = Vec::new();
    for i in 0..v.len()
        invariant
            out@ == v@.take(i as int),
    {
        out.push(v[i].clone());
        assert(v@.take(i + 1) =~= v@.take(i as int).push(v@[i as int]));
    }
    assert(v@.take(v@.len() as int) =~= v@);
    out
}

#[derive(Debug, Clone, Copy, PartialEq, Eq, Structural)]
pub enum LowUnary {
    Negate,
    NegateFloat,
    Not,
}

#[derive(Debug, Clone, Copy, PartialEq, Eq, Structural)]
pub enum LowBinary {
    Add,
    Subtract,
    Multiply,
    DivideUnsigned,
    DivideSigned,
    RemainderUnsigned,
    RemainderSigned,
    And,
    Or,
    Xor,
    ShiftLeft,
    ShiftRightUnsigned,
    ShiftRightSigned,
    AddFloats,
    SubtractFloats,
    MultiplyFloats,
    DivideFloats,
    RemainderFloats,
}

/// A comparison of integers.
#[derive(Debug, Clone, Copy, PartialEq, Eq, Structural)]
pub enum IntTest {
    Equal,
    NotEqual,
    LessUnsigned,
    LessSigned,
    LessEqualUnsigned,
    LessEqualSigned,
    GreaterUnsigned,
    GreaterSigned,
    GreaterEqualUnsigned,
    GreaterEqualSigned,
}

/// A comparison of floating-point numbers: false where one is no number.
#[derive(Debug, Clone, Copy, PartialEq, Eq, Structural)]
pub enum FloatTest {
    Equal,
    NotEqual,
    Less,
    LessEqual,
    Greater,
    GreaterEqual,
}

/// Why no code can be generated.
#[derive(Debug, PartialEq)]
pub struct CodegenError {
    pub message: String,
    pub span: Option<Span>,
}

/// What a `CodegenError` holds.
pub ghost struct CodegenErrorView {
    pub message: Seq<char>,
    pub span: Option<Span>,
}

impl CodegenError {
    pub open spec fn view(&self) -> CodegenErrorView
        decreases self,
    {
        CodegenErrorView {
            message: self.message@,
            span: self.span,
        }
    }
}

impl Clone for CodegenError {
    fn clone(&self) -> (r: Self)
        ensures
            r@ == self@,
        decreases self,
    {
        CodegenError {
            message: self.message.clone(),
            span: self.span,
        }
    }
}

/// What an instruction works on: the result of an earlier command, by its
/// place, a parameter, a global, or a constant.
#[allow(inconsistent_fields)]
#[derive(Debug, PartialEq)]
pub enum Operand {
    Register(usize),
    Parameter(usize),
    Global(DefId),
    Integer { value: i128, ty: LowType },
    Float { value: String, ty: LowType },
    Number { value: u64, bits: u32 },
    AllOnes { bits: u32 },
    Null,
    Undefined(LowType),
}

/// What a `Operand` holds.
#[allow(inconsistent_fields)]
pub ghost enum OperandView {
    Register(usize),
    Parameter(usize),
    Global(DefId),
    Integer { value: i128, ty: LowType },
    Float { value: Seq<char>, ty: LowType },
    Number { value: u64, bits: u32 },
    AllOnes { bits: u32 },
    Null,
    Undefined(LowType),
}

impl Operand {
    pub open spec fn view(&self) -> OperandView
        decreases self,
    {
        match self {
            Operand::Register(inner) => OperandView::Register(*inner),
            Operand::Parameter(inner) => OperandView::Parameter(*inner),
            Operand::Global(inner) => OperandView::Global(*inner),
            Operand::Integer { value, ty } => OperandView::Integer {
                value: *value,
                ty: *ty,
            },
            Operand::Float { value, ty } => OperandView::Float {
                value: value@,
                ty: *ty,
            },
            Operand::Number { value, bits } => OperandView::Number {
                value: *value,
                bits: *bits,
            },
            Operand::AllOnes { bits } => OperandView::AllOnes {
                bits: *bits,
            },
            Operand::Null => OperandView::Null,
            Operand::Undefined(inner) => OperandView::Undefined(*inner),
        }
    }
}

impl Clone for Operand {
    fn clone(&self) -> (r: Self)
        ensures
            r@ == self@,
        decreases self,
    {
        match self {
            Operand::Register(inner) => Operand::Register(*inner),
            Operand::Parameter(inner) => Operand::Parameter(*inner),
            Operand::Global(inner) => Operand::Global(*inner),
            Operand::Integer { value, ty } => Operand::Integer {
                value: *value,
                ty: ty.clone(),
            },
            Operand::Float { value, ty } => Operand::Float {
                value: value.clone(),
                ty: ty.clone(),
            },
            Operand::Number { value, bits } => Operand::Number {
                value: *value,
                bits: *bits,
            },
            Operand::AllOnes { bits } => Operand::AllOnes {
                bits: *bits,
            },
            Operand::Null => Operand::Null,
            Operand::Undefined(inner) => Operand::Undefined(inner.clone()),
        }
    }
}

/// One call of the instruction builder. A block is known by the place of the
/// command that appends it.
#[allow(inconsistent_fields)]
#[derive(Debug, PartialEq)]
pub enum Command {
    Append { name: String },
    Position { block: usize },
    Locate { line: u32, column: u32 },
    Alloca { ty: LowType, name: String },
    Store { pointer: Operand, value: Operand },
    Load { ty: LowType, pointer: Operand, name: String },
    Insert { aggregate: Operand, value: Operand, index: u32, name: String },
    Extract { aggregate: Operand, index: u32, name: String },
    Jump { block: usize },
    Branch { condition: Operand, yes: usize, no: usize },
    Return { value: Option<Operand> },
    Unreachable,
    Call { function: DefId, arguments: Vec<Operand>, name: String },
    Trap,
    Unary { operation: LowUnary, operand: Operand, name: String },
    Binary { operation: LowBinary, left: Operand, right: Operand, name: String },
    Compare { test: IntTest, left: Operand, right: Operand, name: String },
    CompareFloats { test: FloatTest, left: Operand, right: Operand, name: String },
    Element { element: LowType, pointer: Operand, index: Operand, name: String },
    ArrayElement { array: LowType, pointer: Operand, index: Operand, name: String },
    Member { id: DefId, pointer: Operand, index: u32, name: String },
    Distance { element: LowType, left: Operand, right: Operand, name: String },
    Address { pointer: Operand, bits: u32, name: String },
    NotNull { pointer: Operand, name: String },
    Choose { left: Operand, left_block: usize, right: Operand, right_block: usize, name: String },
}

/// What a `Command` holds.
#[allow(inconsistent_fields)]
pub ghost enum CommandView {
    Append { name: Seq<char> },
    Position { block: usize },
    Locate { line: u32, column: u32 },
    Alloca { ty: LowType, name: Seq<char> },
    Store { pointer: OperandView, value: OperandView },
    Load { ty: LowType, pointer: OperandView, name: Seq<char> },
    Insert { aggregate: OperandView, value: OperandView, index: u32, name: Seq<char> },
    Extract { aggregate: OperandView, index: u32, name: Seq<char> },
    Jump { block: usize },
    Branch { condition: OperandView, yes: usize, no: usize },
    Return { value: Option<OperandView> },
    Unreachable,
    Call { function: DefId, arguments: Seq<OperandView>, name: Seq<char> },
    Trap,
    Unary { operation: LowUnary, operand: OperandView, name: Seq<char> },
    Binary { operation: LowBinary, left: OperandView, right: OperandView, name: Seq<char> },
    Compare { test: IntTest, left: OperandView, right: OperandView, name: Seq<char> },
    CompareFloats { test: FloatTest, left: OperandView, right: OperandView, name: Seq<char> },
    Element { element: LowType, pointer: OperandView, index: OperandView, name: Seq<char> },
    ArrayElement { array: LowType, pointer: OperandView, index: OperandView, name: Seq<char> },
    Member { id: DefId, pointer: OperandView, index: u32, name: Seq<char> },
    Distance { element: LowType, left: OperandView, right: OperandView, name: Seq<char> },
    Address { pointer: OperandView, bits: u32, name: Seq<char> },
    NotNull { pointer: OperandView, name: Seq<char> },
    Choose { left: OperandView, left_block: usize, right: OperandView, right_block: usize,
        name: Seq<char> },
}

impl Command {
    pub open spec fn view(&self) -> CommandView
        decreases self,
    {
        match self {
            Command::Append { name } => CommandView::Append {
                name: name@,
            },
            Command::Position { block } => CommandView::Position {
                block: *block,
            },
            Command::Locate { line, column } => CommandView::Locate {
                line: *line,
                column: *column,
            },
            Command::Alloca { ty, name } => CommandView::Alloca {
                ty: *ty,
                name: name@,
            },
            Command::Store { pointer, value } => CommandView::Store {
                pointer: pointer.view(),
                value: value.view(),
            },
            Command::Load { ty, pointer, name } => CommandView::Load {
                ty: *ty,
                pointer: pointer.view(),
                name: name@,
            },
            Command::Insert { aggregate, value, index, name } => CommandView::Insert {
                aggregate: aggregate.view(),
                value: value.view(),
                index: *index,
                name: name@,
            },
            Command::Extract { aggregate, index, name } => CommandView::Extract {
                aggregate: aggregate.view(),
                index: *index,
                name: name@,
            },
            Command::Jump { block } => CommandView::Jump {
                block: *block,
            },
            Command::Branch { condition, yes, no } => CommandView::Branch {
                condition: condition.view(),
                yes: *yes,
                no: *no,
            },
            Command::Return { value } => CommandView::Return {
                value: match value { Some(x) => Some(x.view()), None => None },
            },
            Command::Unreachable => CommandView::Unreachable,
            Command::Call { function, arguments, name } => CommandView::Call {
                function: *function,
                arguments: operands_view(arguments@),
                name: name@,
            },
            Command::Trap => CommandView::Trap,
            Command::Unary { operation, operand, name } => CommandView::Unary {
                operation: *operation,
                operand: operand.view(),
                name: name@,
            },
            Command::Binary { operation, left, right, name } => CommandView::Binary {
                operation: *operation,
                left: left.view(),
                right: right.view(),
                name: name@,
            },
            Command::Compare { test, left, right, name } => CommandView::Compare {
                test: *test,
                left: left.view(),
                right: right.view(),
                name: name@,
            },
            Command::CompareFloats { test, left, right, name } => CommandView::CompareFloats {
                test: *test,
                left: left.view(),
                right: right.view(),
                name: name@,
            },
            Command::Element { element, pointer, index, name } => CommandView::Element {
                element: *element,
                pointer: pointer.view(),
                index: index.view(),
                name: name@,
            },
            Command::ArrayElement { array, pointer, index, name } => CommandView::ArrayElement {
                array: *array,
                pointer: pointer.view(),
                index: index.view(),
                name: name@,
            },
            Command::Member { id, pointer, index, name } => CommandView::Member {
                id: *id,
                pointer: pointer.view(),
                index: *index,
                name: name@,
            },
            Command::Distance { element, left, right, name } => CommandView::Distance {
                element: *element,
                left: left.view(),
                right: right.view(),
                name: name@,
            },
            Command::Address { pointer, bits, name } => CommandView::Address {
                pointer: pointer.view(),
                bits: *bits,
                name: name@,
            },
            Command::NotNull { pointer, name } => CommandView::NotNull {
                pointer: pointer.view(),
                name: name@,
            },
            Command::Choose { left, left_block, right, right_block, name } => CommandView::Choose {
                left: left.view(),
                left_block: *left_block,
                right: right.view(),
                right_block: *right_block,
                name: name@,
            },
        }
    }
}

impl Clone for Command {
    fn clone(&self) -> (r: Self)
        ensures
            r@ == self@,
        decreases self,
    {
        match self {
            Command::Append { name } => Command::Append {
                name: name.clone(),
            },
            Command::Position { block } => Command::Position {
                block: *block,
            },
            Command::Locate { line, column } => Command::Locate {
                line: *line,
                column: *column,
            },
            Command::Alloca { ty, name } => Command::Alloca {
                ty: ty.clone(),
                name: name.clone(),
            },
            Command::Store { pointer, value } => Command::Store {
                pointer: pointer.clone(),
                value: value.clone(),
            },
            Command::Load { ty, pointer, name } => Command::Load {
                ty: ty.clone(),
                pointer: pointer.clone(),
                name: name.clone(),
            },
            Command::Insert { aggregate, value, index, name } => Command::Insert {
                aggregate: aggregate.clone(),
                value: value.clone(),
                index: *index,
                name: name.clone(),
            },
            Command::Extract { aggregate, index, name } => Command::Extract {
                aggregate: aggregate.clone(),
                index: *index,
                name: name.clone(),
            },
            Command::Jump { block } => Command::Jump {
                block: *block,
            },
            Command::Branch { condition, yes, no } => Command::Branch {
                condition: condition.clone(),
                yes: *yes,
                no: *no,
            },
            Command::Return { value } => Command::Return {
                value: match value { Some(x) => Some(x.clone()), None => None },
            },
            Command::Unreachable => Command::Unreachable,
            Command::Call { function, arguments, name } => Command::Call {
                function: *function,
                arguments: operands_clone(arguments),
                name: name.clone(),
            },
            Command::Trap => Command::Trap,
            Command::Unary { operation, operand, name } => Command::Unary {
                operation: *operation,
                operand: operand.clone(),
                name: name.clone(),
            },
            Command::Binary { operation, left, right, name } => Command::Binary {
                operation: *operation,
                left: left.clone(),
                right: right.clone(),
                name: name.clone(),
            },
            Command::Compare { test, left, right, name } => Command::Compare {
                test: *test,
                left: left.clone(),
                right: right.clone(),
                name: name.clone(),
            },
            Command::CompareFloats { test, left, right, name } => Command::CompareFloats {
                test: *test,
                left: left.clone(),
                right: right.clone(),
                name: name.clone(),
            },
            Command::Element { element, pointer, index, name } => Command::Element {
                element: element.clone(),
                pointer: pointer.clone(),
                index: index.clone(),
                name: name.clone(),
            },
            Command::ArrayElement { array, pointer, index, name } => Command::ArrayElement {
                array: array.clone(),
                pointer: pointer.clone(),
                index: index.clone(),
                name: name.clone(),
            },
            Command::Member { id, pointer, index, name } => Command::Member {
                id: *id,
                pointer: pointer.clone(),
                index: *index,
                name: name.clone(),
            },
            Command::Distance { element, left, right, name } => Command::Distance {
                element: element.clone(),
                left: left.clone(),
                right: right.clone(),
                name: name.clone(),
            },
            Command::Address { pointer, bits, name } => Command::Address {
                pointer: pointer.clone(),
                bits: *bits,
                name: name.clone(),
            },
            Command::NotNull { pointer, name } => Command::NotNull {
                pointer: pointer.clone(),
                name: name.clone(),
            },
            Command::Choose { left, left_block, right, right_block, name } => Command::Choose {
                left: left.clone(),
                left_block: *left_block,
                right: right.clone(),
                right_block: *right_block,
                name: name.clone(),
            },
        }
    }
}

/// The initial value of a global.
#[allow(inconsistent_fields)]
#[derive(Debug, PartialEq)]
pub enum Constant {
    Integer { value: i128, ty: LowType },
    Float { value: String, ty: LowType },
    Number { value: u64, bits: u32 },
    Struct { id: DefId, fields: Vec<Constant> },
    Array { element: LowType, values: Vec<Constant> },
    Negated(Box<Constant>),
    Inverted(Box<Constant>),
}

/// What a `Constant` holds.
#[allow(inconsistent_fields)]
pub ghost enum ConstantView {
    Integer { value: i128, ty: LowType },
    Float { value: Seq<char>, ty: LowType },
    Number { value: u64, bits: u32 },
    Struct { id: DefId, fields: Seq<ConstantView> },
    Array { element: LowType, values: Seq<ConstantView> },
    Negated(Box<ConstantView>),
    Inverted(Box<ConstantView>),
}

impl Constant {
    pub open spec fn view(&self) -> ConstantView
        decreases self,
    {
        match self {
            Constant::Integer { value, ty } => ConstantView::Integer {
                value: *value,
                ty: *ty,
            },
            Constant::Float { value, ty } => ConstantView::Float {
                value: value@,
                ty: *ty,
            },
            Constant::Number { value, bits } => ConstantView::Number {
                value: *value,
                bits: *bits,
            },
            Constant::Struct { id, fields } => ConstantView::Struct {
                id: *id,
                fields: constants_view(fields@),
            },
            Constant::Array { element, values } => ConstantView::Array {
                element: *element,
                values: constants_view(values@),
            },
            Constant::Negated(inner) => ConstantView::Negated(Box::new(inner.view())),
            Constant::Inverted(inner) => ConstantView::Inverted(Box::new(inner.view())),
        }
    }
}

impl Clone for Constant {
    fn clone(&self) -> (r: Self)
        ensures
            r@ == self@,
        decreases self,
    {
        match self {
            Constant::Integer { value, ty } => Constant::Integer {
                value: *value,
                ty: ty.clone(),
            },
            Constant::Float { value, ty } => Constant::Float {
                value: value.clone(),
                ty: ty.clone(),
            },
            Constant::Number { value, bits } => Constant::Number {
                value: *value,
                bits: *bits,
            },
            Constant::Struct { id, fields } => Constant::Struct {
                id: *id,
                fields: constants_clone(fields),
            },
            Constant::Array { element, values } => Constant::Array {
                element: element.clone(),
                values: constants_clone(values),
            },
            Constant::Negated(inner) => Constant::Negated(Box::new((**inner).clone())),
            Constant::Inverted(inner) => Constant::Inverted(Box::new((**inner).clone())),
        }
    }
}

/// A value and its type.
#[derive(Debug, PartialEq)]
pub struct Value {
    pub operand: Operand,
    pub ty: LowType,
}

/// What a `Value` holds.
pub ghost struct ValueView {
    pub operand: OperandView,
    pub ty: LowType,
}

impl Value {
    pub open spec fn view(&self) -> ValueView
        decreases self,
    {
        ValueView {
            operand: self.operand.view(),
            ty: self.ty,
        }
    }
}

impl Clone for Value {
    fn clone(&self) -> (r: Self)
        ensures
            r@ == self@,
        decreases self,
    {
        Value {
            operand: self.operand.clone(),
            ty: self.ty.clone(),
        }
    }
}

/// A named struct type.
#[derive(Debug, PartialEq)]
pub struct LowStruct {
    pub id: DefId,
    pub name: String,
    pub fields: Vec<LowType>,
}

/// What a `LowStruct` holds.
pub ghost struct LowStructView {
    pub id: DefId,
    pub name: Seq<char>,
    pub fields: Seq<LowType>,
}

impl LowStruct {
    pub open spec fn view(&self) -> LowStructView
        decreases self,
    {
        LowStructView {
            id: self.id,
            name: self.name@,
            fields: self.fields@,
        }
    }
}

impl Clone for LowStruct {
    fn clone(&self) -> (r: Self)
        ensures
            r@ == self@,
        decreases self,
    {
        LowStruct {
            id: self.id,
            name: self.name.clone(),
            fields: low_types_clone(&self.fields),
        }
    }
}

/// A global.
#[derive(Debug, PartialEq)]
pub struct LowGlobal {
    pub id: DefId,
    pub name: String,
    pub ty: LowType,
    pub value: Constant,
    pub constant: bool,
}

/// What a `LowGlobal` holds.
pub ghost struct LowGlobalView {
    pub id: DefId,
    pub name: Seq<char>,
    pub ty: LowType,
    pub value: ConstantView,
    pub constant: bool,
}

impl LowGlobal {
    pub open spec fn view(&self) -> LowGlobalView
        decreases self,
    {
        LowGlobalView {
            id: self.id,
            name: self.name@,
            ty: self.ty,
            value: self.value.view(),
            constant: self.constant,
        }
    }
}

impl Clone for LowGlobal {
    fn clone(&self) -> (r: Self)
        ensures
            r@ == self@,
        decreases self,
    {
        LowGlobal {
            id: self.id,
            name: self.name.clone(),
            ty: self.ty.clone(),
            value: self.value.clone(),
            constant: self.constant,
        }
    }
}

/// What a debugger is told of a variable.
#[derive(Debug, PartialEq)]
pub struct DebugVariable {
    pub name: String,
    /// How the type prints.
    pub kind: String,
    pub ty: LowType,
    pub pointer: Operand,
    pub line: u32,
}

/// What a `DebugVariable` holds.
pub ghost struct DebugVariableView {
    pub name: Seq<char>,
    pub kind: Seq<char>,
    pub ty: LowType,
    pub pointer: OperandView,
    pub line: u32,
}

impl DebugVariable {
    pub open spec fn view(&self) -> DebugVariableView
        decreases self,
    {
        DebugVariableView {
            name: self.name@,
            kind: self.kind@,
            ty: self.ty,
            pointer: self.pointer.view(),
            line: self.line,
        }
    }
}

impl Clone for DebugVariable {
    fn clone(&self) -> (r: Self)
        ensures
            r@ == self@,
        decreases self,
    {
        DebugVariable {
            name: self.name.clone(),
            kind: self.kind.clone(),
            ty: self.ty.clone(),
            pointer: self.pointer.clone(),
            line: self.line,
        }
    }
}

/// What a debugger is told of a function.
#[derive(Debug, PartialEq)]
pub struct DebugFunction {
    pub line: u32,
    pub column: u32,
    pub parameters: Vec<DebugVariable>,
    pub locals: Vec<DebugVariable>,
}

/// What a `DebugFunction` holds.
pub ghost struct DebugFunctionView {
    pub line: u32,
    pub column: u32,
    pub parameters: Seq<DebugVariableView>,
    pub locals: Seq<DebugVariableView>,
}

impl DebugFunction {
    pub open spec fn view(&self) -> DebugFunctionView
        decreases self,
    {
        DebugFunctionView {
            line: self.line,
            column: self.column,
            parameters: debug_variables_view(self.parameters@),
            locals: debug_variables_view(self.locals@),
        }
    }
}

impl Clone for DebugFunction {
    fn clone(&self) -> (r: Self)
        ensures
            r@ == self@,
        decreases self,
    {
        DebugFunction {
            line: self.line,
            column: self.column,
            parameters: debug_variables_clone(&self.parameters),
            locals: debug_variables_clone(&self.locals),
        }
    }
}

/// A function: how it is declared, and the commands that build its body.
#[derive(Debug, PartialEq)]
pub struct LowFunction {
    pub id: DefId,
    pub name: String,
    pub symbol: String,
    pub link_name: Option<String>,
    pub params: Vec<LowType>,
    pub result: Option<LowType>,
    pub exported: bool,
    pub is_extern: bool,
    pub commands: Vec<Command>,
    pub debug: Option<DebugFunction>,
}

/// What a `LowFunction` holds.
pub ghost struct LowFunctionView {
    pub id: DefId,
    pub name: Seq<char>,
    pub symbol: Seq<char>,
    pub link_name: Option<Seq<char>>,
    pub params: Seq<LowType>,
    pub result: Option<LowType>,
    pub exported: bool,
    pub is_extern: bool,
    pub commands: Seq<CommandView>,
    pub debug: Option<DebugFunctionView>,
}

impl LowFunction {
    pub open spec fn view(&self) -> LowFunctionView
        decreases self,
    {
        LowFunctionView {
            id: self.id,
            name: self.name@,
            symbol: self.symbol@,
            link_name: match self.link_name { Some(x) => Some(x@), None => None },
            params: self.params@,
            result: self.result,
            exported: self.exported,
            is_extern: self.is_extern,
            commands: commands_view(self.commands@),
            debug: match self.debug { Some(x) => Some(x.view()), None => None },
        }
    }
}

impl Clone for LowFunction {
    fn clone(&self) -> (r: Self)
        ensures
            r@ == self@,
        decreases self,
    {
        LowFunction {
            id: self.id,
            name: self.name.clone(),
            symbol: self.symbol.clone(),
            link_name: match &self.link_name { Some(x) => Some(x.clone()), None => None },
            params: low_types_clone(&self.params),
            result: match &self.result { Some(x) => Some(x.clone()), None => None },
            exported: self.exported,
            is_extern: self.is_extern,
            commands: commands_clone(&self.commands),
            debug: match &self.debug { Some(x) => Some(x.clone()), None => None },
        }
    }
}

/// A module for the instruction builder.
#[derive(Debug, PartialEq)]
pub struct LowModule {
    pub name: String,
    pub pointer_width: u32,
    pub structs: Vec<LowStruct>,
    pub globals: Vec<LowGlobal>,
    pub functions: Vec<LowFunction>,
}

/// What a `LowModule` holds.
pub ghost struct LowModuleView {
    pub name: Seq<char>,
    pub pointer_width: u32,
    pub structs: Seq<LowStructView>,
    pub globals: Seq<LowGlobalView>,
    pub functions: Seq<LowFunctionView>,
}

impl LowModule {
    pub open spec fn view(&self) -> LowModuleView
        decreases self,
    {
        LowModuleView {
            name: self.name@,
            pointer_width: self.pointer_width,
            structs: low_structs_view(self.structs@),
            globals: low_globals_view(self.globals@),
            functions: low_functions_view(self.functions@),
        }
    }
}

impl Clone for LowModule {
    fn clone(&self) -> (r: Self)
        ensures
            r@ == self@,
        decreases self,
    {
        LowModule {
            name: self.name.clone(),
            pointer_width: self.pointer_width,
            structs: low_structs_clone(&self.structs),
            globals: low_globals_clone(&self.globals),
            functions: low_functions_clone(&self.functions),
        }
    }
}

/// What a list of `Operand` holds.
pub open spec fn operands_view(s: Seq<Operand>) -> Seq<OperandView>
    decreases s,
{
    Seq::new(
        s.len(),
        |i: int|
            if 0 <= i < s.len() {
                s[i].view()
            } else {
                arbitrary()
            },
    )
}

pub broadcast proof fn lemma_operands_push(s: Seq<Operand>, x: Operand)
    ensures
        #[trigger] operands_view(s.push(x)) == operands_view(s).push(x@),
{
    assert(operands_view(s.push(x)) =~= operands_view(s).push(x@));
}

pub fn operands_clone(v: &Vec<Operand>) -> (r: Vec<Operand>)
    ensures
        operands_view(r@) == operands_view(v@),
    decreases v,
{
    let mut out: Vec<Operand> = Vec::new();
    for i in 0..v.len()
        invariant
            out.len() == i,
            forall|j: int| 0 <= j < i ==> (#[trigger] out@[j])@ == v@[j]@,
    {
        out.push(v[i].clone());
    }
    assert(operands_view(out@) =~= operands_view(v@));
    out
}

/// What a list of `Command` holds.
pub open spec fn commands_view(s: Seq<Command>) -> Seq<CommandView>
    decreases s,
{
    Seq::new(
        s.len(),
        |i: int|
            if 0 <= i < s.len() {
                s[i].view()
            } else {
                arbitrary()
            },
    )
}

pub broadcast proof fn lemma_commands_push(s: Seq<Command>, x: Command)
    ensures
        #[trigger] commands_view(s.push(x)) == commands_view(s).push(x@),
{
    assert(commands_view(s.push(x)) =~= commands_view(s).push(x@));
}

pub fn commands_clone(v: &Vec<Command>) -> (r: Vec<Command>)
    ensures
        commands_view(r@) == commands_view(v@),
    decreases v,
{
    let mut out: Vec<Command> = Vec::new();
    for i in 0..v.len()
        invariant
            out.len() == i,
            forall|j: int| 0 <= j < i ==> (#[trigger] out@[j])@ == v@[j]@,
    {
        out.push(v[i].clone());
    }
    assert(commands_view(out@) =~= commands_view(v@));
    out
}

/// What a list of `Constant` holds.
pub open spec fn constants_view(s: Seq<Constant>) -> Seq<ConstantView>
    decreases s,
{
    Seq::new(
        s.len(),
        |i: int|
            if 0 <= i < s.len() {
                s[i].view()
            } else {
                arbitrary()
            },
    )
}

pub broadcast proof fn lemma_constants_push(s: Seq<Constant>, x: Constant)
    ensures
        #[trigger] constants_view(s.push(x)) == constants_view(s).push(x@),
{
    assert(constants_view(s.push(x)) =~= constants_view(s).push(x@));
}

pub fn constants_clone(v: &Vec<Constant>) -> (r: Vec<Constant>)
    ensures
        constants_view(r@) == constants_view(v@),
    decreases v,
{
    let mut out: Vec<Constant> = Vec::new();
    for i in 0..v.len()
        invariant
            out.len() == i,
            forall|j: int| 0 <= j < i ==> (#[trigger] out@[j])@ == v@[j]@,
    {
        out.push(v[i].clone());
    }
    assert(constants_view(out@) =~= constants_view(v@));
    out
}

/// What a list of `LowStruct` holds.
pub open spec fn low_structs_view(s: Seq<LowStruct>) -> Seq<LowStructView>
    decreases s,
{
    Seq::new(
        s.len(),
        |i: int|
            if 0 <= i < s.len() {
                s[i].view()
            } else {
                arbitrary()
            },
    )
}

pub broadcast proof fn lemma_low_structs_push(s: Seq<LowStruct>, x: LowStruct)
    ensures
        #[trigger] low_structs_view(s.push(x)) == low_structs_view(s).push(x@),
{
    assert(low_structs_view(s.push(x)) =~= low_structs_view(s).push(x@));
}

pub fn low_structs_clone(v: &Vec<LowStruct>) -> (r: Vec<LowStruct>)
    ensures
        low_structs_view(r@) == low_structs_view(v@),
    decreases v,
{
    let mut out: Vec<LowStruct> = Vec::new();
    for i in 0..v.len()
        invariant
            out.len() == i,
            forall|j: int| 0 <= j < i ==> (#[trigger] out@[j])@ == v@[j]@,
    {
        out.push(v[i].clone());
    }
    assert(low_structs_view(out@) =~= low_structs_view(v@));
    out
}

/// What a list of `LowGlobal` holds.
pub open spec fn low_globals_view(s: Seq<LowGlobal>) -> Seq<LowGlobalView>
    decreases s,
{
    Seq::new(
        s.len(),
        |i: int|
            if 0 <= i < s.len() {
                s[i].view()
            } else {
                arbitrary()
            },
    )
}

pub broadcast proof fn lemma_low_globals_push(s: Seq<LowGlobal>, x: LowGlobal)
    ensures
        #[trigger] low_globals_view(s.push(x)) == low_globals_view(s).push(x@),
{
    assert(low_globals_view(s.push(x)) =~= low_globals_view(s).push(x@));
}

pub fn low_globals_clone(v: &Vec<LowGlobal>) -> (r: Vec<LowGlobal>)
    ensures
        low_globals_view(r@) == low_globals_view(v@),
    decreases v,
{
    let mut out: Vec<LowGlobal> = Vec::new();
    for i in 0..v.len()
        invariant
            out.len() == i,
            forall|j: int| 0 <= j < i ==> (#[trigger] out@[j])@ == v@[j]@,
    {
        out.push(v[i].clone());
    }
    assert(low_globals_view(out@) =~= low_globals_view(v@));
    out
}

/// What a list of `LowFunction` holds.
pub open spec fn low_functions_view(s: Seq<LowFunction>) -> Seq<LowFunctionView>
    decreases s,
{
    Seq::new(
        s.len(),
        |i: int|
            if 0 <= i < s.len() {
                s[i].view()
            } else {
                arbitrary()
            },
    )
}

pub broadcast proof fn lemma_low_functions_push(s: Seq<LowFunction>, x: LowFunction)
    ensures
        #[trigger] low_functions_view(s.push(x)) == low_functions_view(s).push(x@),
{
    assert(low_functions_view(s.push(x)) =~= low_functions_view(s).push(x@));
}

pub fn low_functions_clone(v: &Vec<LowFunction>) -> (r: Vec<LowFunction>)
    ensures
        low_functions_view(r@) == low_functions_view(v@),
    decreases v,
{
    let mut out: Vec<LowFunction> = Vec::new();
    for i in 0..v.len()
        invariant
            out.len() == i,
            forall|j: int| 0 <= j < i ==> (#[trigger] out@[j])@ == v@[j]@,
    {
        out.push(v[i].clone());
    }
    assert(low_functions_view(out@) =~= low_functions_view(v@));
    out
}

/// What a list of `DebugVariable` holds.
pub open spec fn debug_variables_view(s: Seq<DebugVariable>) -> Seq<DebugVariableView>
    decreases s,
{
    Seq::new(
        s.len(),
        |i: int|
            if 0 <= i < s.len() {
                s[i].view()
            } else {
                arbitrary()
            },
    )
}

pub broadcast proof fn lemma_debug_variables_push(s: Seq<DebugVariable>, x: DebugVariable)
    ensures
        #[trigger] debug_variables_view(s.push(x)) == debug_variables_view(s).push(x@),
{
    assert(debug_variables_view(s.push(x)) =~= debug_variables_view(s).push(x@));
}

pub fn debug_variables_clone(v: &Vec<DebugVariable>) -> (r: Vec<DebugVariable>)
    ensures
        debug_variables_view(r@) == debug_variables_view(v@),
    decreases v,
{
    let mut out: Vec<DebugVariable> = Vec::new();
    for i in 0..v.len()
        invariant
            out.len() == i,
            forall|j: int| 0 <= j < i ==> (#[trigger] out@[j])@ == v@[j]@,
    {
        out.push(v[i].clone());
    }
    assert(debug_variables_view(out@) =~= debug_variables_view(v@));
    out
}

pub broadcast group group_instruction_lists {
    lemma_operands_push,
    lemma_commands_push,
    lemma_constants_push,
    lemma_low_structs_push,
    lemma_low_globals_push,
    lemma_low_functions_push,
    lemma_debug_variables_push,
}

impl CodegenErrorView {
    /// How the error prints.
    pub open spec fn text(self) -> Seq<char> {
        match self.span {
            Some(span) => self.message + " at "@ + span_text(span),
            None => self.message,
        }
    }
}

impl CodegenError {
    pub fn new(message: String) -> (r: Self)
        ensures
            r@ == (CodegenErrorView { message: message@, span: None }),
    {
        CodegenError { message, span: None }
    }

    pub fn at(message: String, span: Span) -> (r: Self)
        ensures
            r@ == (CodegenErrorView { message: message@, span: Some(span) }),
    {
        CodegenError { message, span: Some(span) }
    }

    pub fn to_string(&self) -> (r: String)
        ensures
            r@ == self@.text(),
    {
        match self.span {
            Some(span) => {
                let place: String = show_span(span);
                joined(joined(self.message.clone(), " at "), place.as_str())
            },
            None => self.message.clone(),
        }
    }
}

} // verus!
