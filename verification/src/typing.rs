//! The typing rules: which typed program, or which error, a program stands
//! for.
use crate::ast::{
    BinaryOp, BlockView, DeclView, ExprView, FunctionDeclView, ParameterView, ProgramView, StmtView,
    StructFieldView, StructInitView, TypeView, UnaryOp, VariableDeclView, VariableKind,
};
use crate::floats::{compares, float_question, negated, FloatModel};
use crate::integers::{held, low, quotient, remainder};
use crate::lexer::Span;
use crate::semantic::{BindingView, SemanticErrorView};
use crate::text::decimal;
use crate::typed::{
    DefId, DefinitionKind, DefinitionView, IntegerWidth, Intrinsic, LayoutKind, LocalId,
    LowLevelOperation, ResolvedType, SymbolTableView, TypeInternerView, TypedBlockView,
    TypedConstantView, TypedExprView, TypedFieldView, TypedFunctionView, TypedGlobalView,
    TypedParameterView, TypedPlaceView, TypedProgramView, TypedStmtView, TypedStructView,
};
use crate::typed_eval;
use vstd::arithmetic::power2::pow2;
use vstd::prelude::*;

verus! {

// ---------------------------------------------------------------------------
// What is declared
// ---------------------------------------------------------------------------

/// The sorts of declaration that names are looked up among.
#[derive(Debug, Clone, Copy, PartialEq, Eq, Structural)]
pub enum Sort {
    Any,
    Function,
    Struct,
    Variable,
    Constant,
}

/// The name that a declaration declares, if it declares one.
pub open spec fn declared_name(d: DeclView) -> Option<Seq<char>> {
    match d {
        DeclView::Function(f) => Some(f.name),
        DeclView::Struct(s) => Some(s.name),
        DeclView::Variable(v) => Some(v.name),
        DeclView::Comptime { .. } => None,
    }
}

/// Where a declaration stands in its source.
pub open spec fn declared_span(d: DeclView) -> Span {
    match d {
        DeclView::Function(f) => f.span,
        DeclView::Struct(s) => s.span,
        DeclView::Variable(v) => v.span,
        DeclView::Comptime { span, .. } => span,
    }
}

pub open spec fn is_of_sort(d: DeclView, sort: Sort) -> bool {
    match sort {
        Sort::Any => true,
        Sort::Function => d is Function,
        Sort::Struct => d is Struct,
        Sort::Variable => d is Variable,
        Sort::Constant => d matches DeclView::Variable(v) && v.kind == VariableKind::Immutable,
    }
}

/// The last of the first `n` declarations that has the name and the sort.
pub open spec fn find_declaration(
    decls: Seq<DeclView>,
    n: int,
    name: Seq<char>,
    sort: Sort,
) -> Option<int>
    decreases n,
{
    if n <= 0 || n > decls.len() {
        None
    } else if is_of_sort(decls[n - 1], sort) && declared_name(decls[n - 1]) == Some(name) {
        Some(n - 1)
    } else {
        find_declaration(decls, n - 1, name, sort)
    }
}

/// The declarations of a program, with the identity of each and, for a
/// variable, its type as written or inferred.
pub ghost struct Context {
    pub decls: Seq<DeclView>,
    pub ids: Seq<DefId>,
    pub types: Seq<TypeView>,
}

impl Context {
    pub open spec fn wf(self) -> bool {
        self.ids.len() == self.decls.len() && self.types.len() == self.decls.len()
    }

    /// The last declaration of the name and sort.
    pub open spec fn find(self, name: Seq<char>, sort: Sort) -> Option<int> {
        find_declaration(self.decls, self.decls.len() as int, name, sort)
    }
}

pub open spec fn named(name: Seq<char>) -> TypeView {
    TypeView::Named(name)
}

/// The type that the form of an expression suggests, where `types` holds the
/// types of the variables among the first `n` declarations.
pub open spec fn inferred(
    decls: Seq<DeclView>,
    types: Seq<TypeView>,
    n: int,
    e: ExprView,
) -> TypeView
    decreases e,
{
    match e {
        ExprView::Integer { .. } => named("i32"@),
        ExprView::Float { .. } => named("f64"@),
        ExprView::Bool { .. } => named("bool"@),
        ExprView::Identifier { name, .. } => match find_declaration(
            decls,
            n,
            name,
            Sort::Variable,
        ) {
            Some(i) => types[i],
            None => named("i32"@),
        },
        ExprView::StructLiteral { name, .. } => named(name),
        ExprView::ArrayLiteral { ty, .. } => ty,
        ExprView::Null { .. } => TypeView::Pointer(Box::new(named("u8"@))),
        ExprView::SizeOf { .. } => named("usize"@),
        ExprView::AlignOf { .. } => named("usize"@),
        ExprView::OffsetOf { .. } => named("usize"@),
        ExprView::UncheckedIndex { base, .. } => inferred(decls, types, n, *base),
        ExprView::Index { base, .. } => inferred(decls, types, n, *base),
        ExprView::Propagate { expression, .. } => inferred(decls, types, n, *expression),
        ExprView::Unary { operator, operand, .. } => {
            let inner = inferred(decls, types, n, *operand);
            match operator {
                UnaryOp::AddressOf => TypeView::Pointer(Box::new(inner)),
                UnaryOp::Dereference => match inner {
                    TypeView::Pointer(x) => *x,
                    _ => named("i32"@),
                },
                _ => inner,
            }
        },
        ExprView::Binary { left, .. } => inferred(decls, types, n, *left),
        ExprView::Call { arguments, .. } => if arguments.len() > 0 {
            inferred(decls, types, n, arguments[0])
        } else {
            named("i32"@)
        },
        _ => named("i32"@),
    }
}

/// The types of the variables among the first `n` declarations.
pub open spec fn variable_types(decls: Seq<DeclView>, n: int) -> Seq<TypeView>
    decreases n,
{
    if n <= 0 || n > decls.len() {
        Seq::empty()
    } else {
        let before = variable_types(decls, n - 1);
        before.push(
            match decls[n - 1] {
                DeclView::Variable(v) => match v.ty {
                    Some(ty) => ty,
                    None => inferred(decls, before, n - 1, v.value),
                },
                _ => TypeView::Unit,
            },
        )
    }
}

/// Identities that names have from elsewhere: the last entry of a name holds.
pub open spec fn known_id(known: Seq<(Seq<char>, DefId)>, n: int, name: Seq<char>) -> Option<DefId>
    decreases n,
{
    if n <= 0 || n > known.len() {
        None
    } else if known[n - 1].0 == name {
        Some(known[n - 1].1)
    } else {
        known_id(known, n - 1, name)
    }
}

/// The number after `n`, as far as there is one.
pub open spec fn next_id(n: u32) -> u32 {
    if n == u32::MAX {
        n
    } else {
        (n + 1) as u32
    }
}

/// The first number above the identities that the first `n` names have.
pub open spec fn first_free_id(known: Seq<(Seq<char>, DefId)>, n: int) -> u32
    decreases n,
{
    if n <= 0 || n > known.len() {
        0
    } else {
        let before = first_free_id(known, n - 1);
        let id = next_id(known_id(known, known.len() as int, known[n - 1].0).unwrap().0);
        if id > before {
            id
        } else {
            before
        }
    }
}

/// The identities of the first `n` declarations, and the next free number.
pub open spec fn assigned_ids(
    decls: Seq<DeclView>,
    known: Seq<(Seq<char>, DefId)>,
    n: int,
) -> (Seq<DefId>, u32)
    decreases n,
{
    if n <= 0 || n > decls.len() {
        (Seq::empty(), first_free_id(known, known.len() as int))
    } else {
        let (ids, next) = assigned_ids(decls, known, n - 1);
        match declared_name(decls[n - 1]) {
            None => (ids.push(DefId(u32::MAX)), next),
            Some(name) => match known_id(known, known.len() as int, name) {
                Some(id) => (ids.push(id), next),
                None => (ids.push(DefId(next)), next_id(next)),
            },
        }
    }
}

/// What a program declares, with identities from elsewhere where `known` has
/// them.
pub open spec fn context_of(program: ProgramView, known: Seq<(Seq<char>, DefId)>) -> Context {
    let decls = program.declarations;
    Context {
        decls,
        ids: assigned_ids(decls, known, decls.len() as int).0,
        types: variable_types(decls, decls.len() as int),
    }
}

/// The identity of the declaration that a name stands for.
pub open spec fn id_of(ctx: Context, name: Seq<char>) -> DefId {
    match ctx.find(name, Sort::Any) {
        Some(i) => ctx.ids[i],
        None => DefId(u32::MAX),
    }
}

// ---------------------------------------------------------------------------
// Types
// ---------------------------------------------------------------------------

pub open spec fn sized(bits: u16, signed: bool) -> ResolvedType {
    ResolvedType::Integer { width: IntegerWidth::Bits(bits), signed }
}

pub open spec fn pointer_sized(signed: bool) -> ResolvedType {
    ResolvedType::Integer { width: IntegerWidth::Pointer, signed }
}

/// The type that a built-in name stands for.
pub open spec fn builtin_type(name: Seq<char>) -> Option<ResolvedType> {
    if name == "bool"@ {
        Some(ResolvedType::Bool)
    } else if name == "i8"@ {
        Some(sized(8, true))
    } else if name == "i16"@ {
        Some(sized(16, true))
    } else if name == "i32"@ {
        Some(sized(32, true))
    } else if name == "i64"@ {
        Some(sized(64, true))
    } else if name == "i128"@ {
        Some(sized(128, true))
    } else if name == "u8"@ {
        Some(sized(8, false))
    } else if name == "u16"@ {
        Some(sized(16, false))
    } else if name == "u32"@ {
        Some(sized(32, false))
    } else if name == "u64"@ {
        Some(sized(64, false))
    } else if name == "u128"@ {
        Some(sized(128, false))
    } else if name == "usize"@ {
        Some(pointer_sized(false))
    } else if name == "isize"@ {
        Some(pointer_sized(true))
    } else if name == "f32"@ {
        Some(ResolvedType::Float { bits: 32 })
    } else if name == "f64"@ {
        Some(ResolvedType::Float { bits: 64 })
    } else if name == "void"@ {
        Some(ResolvedType::Unit)
    } else {
        None
    }
}

/// The type that a written type stands for.
pub open spec fn resolved(ctx: Context, ty: TypeView) -> ResolvedType
    decreases ty,
{
    match ty {
        TypeView::Unit => ResolvedType::Unit,
        TypeView::Named(name) => match builtin_type(name) {
            Some(ty) => ty,
            None => match ctx.find(name, Sort::Struct) {
                Some(i) => ResolvedType::Struct(ctx.ids[i]),
                None => ResolvedType::Struct(DefId(u32::MAX)),
            },
        },
        TypeView::Array { length, element } => ResolvedType::Array {
            length,
            element: Box::new(resolved(ctx, *element)),
        },
        TypeView::Pointer(element) => ResolvedType::Pointer(Box::new(resolved(ctx, *element))),
        TypeView::Slice(element) => ResolvedType::Slice(Box::new(resolved(ctx, *element))),
        TypeView::Result { success, error } => ResolvedType::Result {
            success: Box::new(resolved(ctx, *success)),
            error: Box::new(resolved(ctx, *error)),
        },
    }
}

/// The last of the first `n` declarations that is a struct of the identity.
pub open spec fn find_struct_by_id(ctx: Context, n: int, id: DefId) -> Option<int>
    decreases n,
{
    if n <= 0 || n > ctx.decls.len() {
        None
    } else if ctx.decls[n - 1] is Struct && ctx.ids[n - 1] == id {
        Some(n - 1)
    } else {
        find_struct_by_id(ctx, n - 1, id)
    }
}

pub open spec fn struct_name(ctx: Context, id: DefId) -> Seq<char> {
    match find_struct_by_id(ctx, ctx.decls.len() as int, id) {
        Some(i) => declared_name(ctx.decls[i]).unwrap(),
        None => "<unknown-struct>"@,
    }
}

/// The name of an integer type.
pub open spec fn integer_name(width: IntegerWidth, signed: bool) -> Seq<char> {
    match width {
        IntegerWidth::Pointer => if signed {
            "isize"@
        } else {
            "usize"@
        },
        IntegerWidth::Bits(bits) => if signed {
            if bits == 8 {
                "i8"@
            } else if bits == 16 {
                "i16"@
            } else if bits == 64 {
                "i64"@
            } else if bits == 128 {
                "i128"@
            } else {
                "i32"@
            }
        } else {
            if bits == 8 {
                "u8"@
            } else if bits == 16 {
                "u16"@
            } else if bits == 32 {
                "u32"@
            } else if bits == 64 {
                "u64"@
            } else if bits == 128 {
                "u128"@
            } else {
                "i32"@
            }
        },
    }
}

/// How a type is written.
pub open spec fn written(ctx: Context, ty: ResolvedType) -> TypeView
    decreases ty,
{
    match ty {
        ResolvedType::Unit => TypeView::Unit,
        ResolvedType::Bool => named("bool"@),
        ResolvedType::Integer { width, signed } => named(integer_name(width, signed)),
        ResolvedType::Float { bits } => named(
            if bits == 32 {
                "f32"@
            } else {
                "f64"@
            },
        ),
        ResolvedType::Struct(id) => named(struct_name(ctx, id)),
        ResolvedType::Array { length, element } => TypeView::Array {
            length,
            element: Box::new(written(ctx, *element)),
        },
        ResolvedType::Pointer(element) => TypeView::Pointer(Box::new(written(ctx, *element))),
        ResolvedType::Slice(element) => TypeView::Slice(Box::new(written(ctx, *element))),
        ResolvedType::Result { success, error } => TypeView::Result {
            success: Box::new(written(ctx, *success)),
            error: Box::new(written(ctx, *error)),
        },
    }
}

/// How messages print a type.
pub open spec fn type_text(ty: TypeView) -> Seq<char>
    decreases ty,
{
    match ty {
        TypeView::Unit => "void"@,
        TypeView::Named(name) => name,
        TypeView::Array { length, element } => "["@ + decimal(length as nat) + "]"@ + type_text(
            *element,
        ),
        TypeView::Pointer(element) => "*"@ + type_text(*element),
        TypeView::Slice(element) => "[]"@ + type_text(*element),
        TypeView::Result { success, error } => type_text(*success) + " | "@ + type_text(*error),
    }
}

/// Whether a type is written as the type of nothing.
pub open spec fn is_void(ty: TypeView) -> bool {
    ty is Unit || ty == named("void"@)
}

/// Whether a written type is one; the error where it is not.
pub open spec fn checked_type(ctx: Context, ty: TypeView, span: Span) -> Result<
    (),
    SemanticErrorView,
>
    decreases ty, 0int,
{
    match ty {
        TypeView::Unit => Ok(()),
        TypeView::Named(name) => if builtin_type(name) is Some || ctx.find(
            name,
            Sort::Struct,
        ) is Some {
            Ok(())
        } else {
            Err(SemanticErrorView::UnknownType { name, span })
        },
        TypeView::Array { element, .. } => checked_value_type(ctx, *element, span),
        TypeView::Slice(element) => checked_value_type(ctx, *element, span),
        TypeView::Pointer(element) => if is_void(*element) {
            Ok(())
        } else {
            checked_value_type(ctx, *element, span)
        },
        TypeView::Result { success, error } => match checked_type(ctx, *success, span) {
            Err(problem) => Err(problem),
            Ok(()) => checked_value_type(ctx, *error, span),
        },
    }
}

/// Whether a written type is one that a value can have.
pub open spec fn checked_value_type(ctx: Context, ty: TypeView, span: Span) -> Result<
    (),
    SemanticErrorView,
>
    decreases ty, 1int,
{
    if is_void(ty) {
        Err(SemanticErrorView::UnknownType { name: "void"@, span })
    } else {
        checked_type(ctx, ty, span)
    }
}

// ---------------------------------------------------------------------------
// The declarations as a whole
// ---------------------------------------------------------------------------

/// The types of the parameters from `i` on are types of values.
pub open spec fn checked_parameters(ctx: Context, params: Seq<ParameterView>, i: int) -> Result<
    (),
    SemanticErrorView,
>
    decreases params.len() - i,
{
    if i < 0 || i >= params.len() {
        Ok(())
    } else {
        match checked_value_type(ctx, params[i].ty, params[i].span) {
            Err(error) => Err(error),
            Ok(()) => checked_parameters(ctx, params, i + 1),
        }
    }
}

/// Whether one of the first `n` fields has the name.
pub open spec fn has_field(fields: Seq<StructFieldView>, n: int, name: Seq<char>) -> bool {
    exists|k: int| 0 <= k < n && k < fields.len() && (#[trigger] fields[k]).name == name
}

/// The fields from `i` on differ in name from those before and have types of
/// values.
pub open spec fn checked_fields(ctx: Context, fields: Seq<StructFieldView>, i: int) -> Result<
    (),
    SemanticErrorView,
>
    decreases fields.len() - i,
{
    if i < 0 || i >= fields.len() {
        Ok(())
    } else if has_field(fields, i, fields[i].name) {
        Err(SemanticErrorView::DuplicateName { name: fields[i].name, span: fields[i].span })
    } else {
        match checked_value_type(ctx, fields[i].ty, fields[i].span) {
            Err(error) => Err(error),
            Ok(()) => checked_fields(ctx, fields, i + 1),
        }
    }
}

/// The calling convention of a function, and its types.
pub open spec fn checked_function(ctx: Context, f: FunctionDeclView) -> Result<
    (),
    SemanticErrorView,
> {
    if f.abi matches Some(abi) && abi != "c"@ {
        Err(SemanticErrorView::InvalidAbi { abi: f.abi.unwrap(), span: f.span })
    } else {
        match checked_parameters(ctx, f.params, 0) {
            Err(error) => Err(error),
            Ok(()) => checked_type(ctx, f.return_type, f.span),
        }
    }
}

pub open spec fn checked_declaration(ctx: Context, d: DeclView) -> Result<(), SemanticErrorView> {
    match d {
        DeclView::Function(f) => checked_function(ctx, f),
        DeclView::Struct(s) => checked_fields(ctx, s.fields, 0),
        DeclView::Variable(v) => match v.ty {
            Some(ty) => checked_value_type(ctx, ty, v.span),
            None => Ok(()),
        },
        DeclView::Comptime { .. } => Ok(()),
    }
}

/// The declarations from `i` on differ in name from those before and are
/// well formed.
pub open spec fn checked_declarations(ctx: Context, i: int) -> Result<(), SemanticErrorView>
    decreases ctx.decls.len() - i,
{
    if i < 0 || i >= ctx.decls.len() {
        Ok(())
    } else {
        let d = ctx.decls[i];
        match declared_name(d) {
            None => checked_declarations(ctx, i + 1),
            Some(name) => if find_declaration(ctx.decls, i, name, Sort::Any) is Some {
                Err(SemanticErrorView::DuplicateName { name, span: declared_span(d) })
            } else {
                match checked_declaration(ctx, d) {
                    Err(error) => Err(error),
                    Ok(()) => checked_declarations(ctx, i + 1),
                }
            },
        }
    }
}

// ---------------------------------------------------------------------------
// Expressions
// ---------------------------------------------------------------------------

/// Where an expression stands: what is declared, what the function around it
/// returns, and the local variables in scope, the innermost last.
pub ghost struct Env {
    pub ctx: Context,
    pub is_main: bool,
    pub output: ResolvedType,
    pub locals: Seq<BindingView>,
}

/// The innermost of the first `n` bindings of a name.
pub open spec fn binding_of(
    locals: Seq<BindingView>,
    n: int,
    name: Seq<char>,
) -> Option<BindingView>
    decreases n,
{
    if n <= 0 || n > locals.len() {
        None
    } else if locals[n - 1].name == name {
        Some(locals[n - 1])
    } else {
        binding_of(locals, n - 1, name)
    }
}

/// Whether the innermost of the first `n` bindings of an identity can be
/// assigned to.
pub open spec fn local_is_mutable(locals: Seq<BindingView>, n: int, id: LocalId) -> bool
    decreases n,
{
    if n <= 0 || n > locals.len() {
        true
    } else if locals[n - 1].id == id {
        locals[n - 1].mutable
    } else {
        local_is_mutable(locals, n - 1, id)
    }
}

pub type Lowered = Result<TypedExprView, SemanticErrorView>;

pub open spec fn bad_operand(message: Seq<char>, span: Span) -> SemanticErrorView {
    SemanticErrorView::InvalidOperand { message, span }
}

/// That a type is the expected one, where one is expected.
pub open spec fn expected_type(
    ctx: Context,
    expected: Option<ResolvedType>,
    actual: ResolvedType,
    span: Span,
) -> Result<(), SemanticErrorView> {
    match expected {
        Some(wanted) => if wanted == actual {
            Ok(())
        } else {
            Err(
                SemanticErrorView::TypeMismatch {
                    expected: written(ctx, wanted),
                    found: written(ctx, actual),
                    span,
                },
            )
        },
        None => Ok(()),
    }
}

/// A typed expression, where its type is the expected one.
pub open spec fn if_expected(
    ctx: Context,
    expected: Option<ResolvedType>,
    typed: TypedExprView,
    span: Span,
) -> Lowered {
    match expected_type(ctx, expected, typed.ty(), span) {
        Err(error) => Err(error),
        Ok(()) => Ok(typed),
    }
}

/// Whether an expression is one whose typed form is its place's.
pub open spec fn is_place(e: ExprView) -> bool {
    match e {
        ExprView::Field { .. } => true,
        ExprView::Index { .. } => true,
        ExprView::UncheckedIndex { .. } => true,
        ExprView::Unary { operator, .. } => operator == UnaryOp::Dereference,
        _ => false,
    }
}

/// The integer that an expression plainly is: a literal, or a constant
/// declared as one.
pub open spec fn plain_integer(ctx: Context, e: ExprView) -> Option<i128> {
    match e {
        ExprView::Integer { value, .. } => Some(value),
        ExprView::Identifier { name, .. } => match ctx.find(name, Sort::Constant) {
            Some(i) => match ctx.decls[i]->Variable_0.value {
                ExprView::Integer { value, .. } => Some(value),
                _ => None,
            },
            None => None,
        },
        _ => None,
    }
}

/// Whether an index that is plain from the program lies outside an array.
pub open spec fn out_of_bounds(index: Option<i128>, length: Option<u64>) -> bool {
    match index {
        None => false,
        Some(value) => value < 0 || (length matches Some(bound) && value >= bound),
    }
}

/// The first field of the name, from `i` on.
pub open spec fn field_index(fields: Seq<StructFieldView>, i: int, name: Seq<char>) -> Option<int>
    decreases fields.len() - i,
{
    if i < 0 || i >= fields.len() {
        None
    } else if fields[i].name == name {
        Some(i)
    } else {
        field_index(fields, i + 1, name)
    }
}

/// The first initializer of the name, from `i` on.
pub open spec fn init_index(inits: Seq<StructInitView>, i: int, name: Seq<char>) -> Option<int>
    decreases inits.len() - i,
{
    if i < 0 || i >= inits.len() {
        None
    } else if inits[i].name == name {
        Some(i)
    } else {
        init_index(inits, i + 1, name)
    }
}

/// The initializers from `i` on name fields of the struct, each once.
pub open spec fn checked_inits(
    fields: Seq<StructFieldView>,
    inits: Seq<StructInitView>,
    i: int,
) -> Result<(), SemanticErrorView>
    decreases inits.len() - i,
{
    if i < 0 || i >= inits.len() {
        Ok(())
    } else {
        let init = inits[i];
        match init_index(inits, 0, init.name) {
            Some(first) => if first < i {
                Err(SemanticErrorView::DuplicateName { name: init.name, span: init.span })
            } else if field_index(fields, 0, init.name) is None {
                Err(bad_operand("unknown field `"@ + init.name + "`"@, init.span))
            } else {
                checked_inits(fields, inits, i + 1)
            },
            None => checked_inits(fields, inits, i + 1),
        }
    }
}

/// The typed form of an expression where a type is expected, or where none
/// is. At most `depth` constants are looked through on the way to a literal.
pub open spec fn lowered(
    env: Env,
    e: ExprView,
    expected: Option<ResolvedType>,
    depth: nat,
) -> Lowered
    decreases
            depth,
            e,
            (if is_place(e) {
                1int
            } else {
                0int
            }),
{
    let span = e.span();
    match e {
        ExprView::Comptime { .. } => Err(
            bad_operand("compile-time marker was not expanded before lowering"@, span),
        ),
        ExprView::Integer { value, .. } => {
            let ty = match expected {
                Some(wanted) => if wanted is Integer {
                    wanted
                } else {
                    sized(32, true)
                },
                None => sized(32, true),
            };
            if_expected(env.ctx, expected, TypedExprView::Integer { value, ty, span }, span)
        },
        ExprView::Float { value, .. } => {
            let ty = match expected {
                Some(wanted) => if wanted is Float {
                    wanted
                } else {
                    ResolvedType::Float { bits: 64 }
                },
                None => ResolvedType::Float { bits: 64 },
            };
            if_expected(env.ctx, expected, TypedExprView::Float { value, ty, span }, span)
        },
        ExprView::Bool { value, .. } => if_expected(
            env.ctx,
            expected,
            TypedExprView::Bool { value, ty: ResolvedType::Bool, span },
            span,
        ),
        ExprView::String { .. } => Err(
            bad_operand("strings are only available in compile-time context"@, span),
        ),
        ExprView::Propagate { expression, .. } => match lowered(env, *expression, None, depth) {
            Err(error) => Err(error),
            Ok(value) => propagated(env, value, span),
        },
        ExprView::Null { .. } => match expected {
            Some(ty) => Ok(TypedExprView::Null { ty, span }),
            None => Err(bad_operand("null requires a pointer context"@, span)),
        },
        ExprView::SizeOf { ty, .. } => Ok(layout_query(env.ctx, LayoutKind::Size, ty, None, span)),
        ExprView::AlignOf { ty, .. } => Ok(
            layout_query(env.ctx, LayoutKind::Align, ty, None, span),
        ),
        ExprView::OffsetOf { ty, field, .. } => Ok(
            layout_query(env.ctx, LayoutKind::Offset, ty, Some(field), span),
        ),
        ExprView::Identifier { name, .. } => match named_value(env, name, expected, span) {
            Some(result) => result,
            None => match env.ctx.find(name, Sort::Constant) {
                None => Err(SemanticErrorView::UndefinedName { name, span }),
                Some(i) => if depth == 0 {
                    Err(bad_operand("constant is defined by itself"@, span))
                } else {
                    lowered(
                        env,
                        env.ctx.decls[i]->Variable_0.value,
                        Some(variable_type(env.ctx, env.ctx.decls[i]->Variable_0)),
                        (depth - 1) as nat,
                    )
                },
            },
        },
        ExprView::StructLiteral { name, fields, .. } => match env.ctx.find(name, Sort::Struct) {
            None => Err(SemanticErrorView::UnknownType { name, span }),
            Some(i) => {
                let structure = env.ctx.decls[i]->Struct_0;
                match checked_inits(structure.fields, fields, 0) {
                    Err(error) => Err(error),
                    Ok(()) => match lowered_fields(
                        env,
                        name,
                        structure.fields,
                        fields,
                        0,
                        Seq::empty(),
                        span,
                        depth,
                    ) {
                        Err(error) => Err(error),
                        Ok(values) => Ok(
                            TypedExprView::StructLiteral {
                                ty: ResolvedType::Struct(env.ctx.ids[i]),
                                fields: values,
                                span,
                            },
                        ),
                    },
                }
            },
        },
        ExprView::ArrayLiteral { ty, elements, .. } => match ty {
            TypeView::Array { length, element } => if elements.len() != length {
                Err(
                    bad_operand(
                        "array literal expects "@ + decimal(length as nat) + " elements, got "@
                            + decimal(elements.len()),
                        span,
                    ),
                )
            } else {
                match lowered_elements(
                    env,
                    elements,
                    resolved(env.ctx, *element),
                    0,
                    Seq::empty(),
                    depth,
                ) {
                    Err(error) => Err(error),
                    Ok(values) => Ok(
                        TypedExprView::ArrayLiteral {
                            ty: resolved(env.ctx, ty),
                            elements: values,
                            span,
                        },
                    ),
                }
            },
            _ => Err(bad_operand("array literal requires an array type"@, span)),
        },
        ExprView::Field { .. } => match lowered_place(env, e, depth) {
            Err(error) => Err(error),
            Ok(place) => Ok(
                TypedExprView::Field { place: Box::new(place), ty: place.ty(), span },
            ),
        },
        ExprView::Index { .. } => match lowered_place(env, e, depth) {
            Err(error) => Err(error),
            Ok(place) => Ok(
                TypedExprView::Index { place: Box::new(place), ty: place.ty(), span },
            ),
        },
        ExprView::UncheckedIndex { .. } => match lowered_place(env, e, depth) {
            Err(error) => Err(error),
            Ok(place) => Ok(
                TypedExprView::Index { place: Box::new(place), ty: place.ty(), span },
            ),
        },
        ExprView::Unary { operator, operand, .. } => match operator {
            UnaryOp::AddressOf => match lowered_place(env, *operand, depth) {
                Err(error) => Err(error),
                Ok(place) => Ok(
                    TypedExprView::AddressOf {
                        place: Box::new(place),
                        ty: ResolvedType::Pointer(Box::new(place.ty())),
                        span,
                    },
                ),
            },
            UnaryOp::Dereference => match lowered_place(env, e, depth) {
                Err(error) => Err(error),
                Ok(place) => Ok(
                    TypedExprView::Dereference { place: Box::new(place), ty: place.ty(), span },
                ),
            },
            _ => {
                let wanted = if operator == UnaryOp::Not {
                    Some(ResolvedType::Bool)
                } else {
                    expected
                };
                match lowered(env, *operand, wanted, depth) {
                    Err(error) => Err(error),
                    Ok(value) => Ok(
                        TypedExprView::Unary {
                            operator,
                            operand: Box::new(value),
                            ty: value.ty(),
                            span,
                        },
                    ),
                }
            },
        },
        ExprView::Binary { left, operator, right, .. } => match lowered(
            env,
            *left,
            left_expectation(operator, *left, expected),
            depth,
        ) {
            Err(error) => Err(error),
            Ok(a) =>
                match lowered(env, *right, right_expectation(operator, a.ty(), *right), depth) {
                Err(error) => Err(error),
                Ok(b) => combined(env.ctx, operator, a, b, expected, right.span(), span),
            },
        },
        ExprView::Call { callee, arguments, .. } => match *callee {
            ExprView::Identifier { name, .. } => match Intrinsic::named(name) {
                None => lowered_function_call(env, name, arguments, span, depth),
                Some(Intrinsic::MakeSlice) => lowered_make_slice(
                    env,
                    name,
                    arguments,
                    span,
                    depth,
                ),
                Some(intrinsic) => match intrinsic.low_level() {
                    Some(operation) => lowered_low_level(
                        env,
                        name,
                        operation,
                        arguments,
                        span,
                        depth,
                    ),
                    None => lowered_result_builtin(env, name, intrinsic, arguments, span, depth),
                },
            },
            _ => Err(SemanticErrorView::NotCallable { name: "<expression>"@, span }),
        },
    }
}

/// A call of a declared function.
pub open spec fn lowered_function_call(
    env: Env,
    name: Seq<char>,
    arguments: Seq<ExprView>,
    span: Span,
    depth: nat,
) -> Lowered
    decreases depth, arguments, arguments.len() + 1,
{
    match env.ctx.find(name, Sort::Function) {
        None => Err(SemanticErrorView::UndefinedName { name, span }),
        Some(i) => {
            let f = env.ctx.decls[i]->Function_0;
            let types = parameter_types(env.ctx, f.params);
            if arguments.len() != types.len() {
                Err(wrong_count(name, types.len(), arguments.len(), span))
            } else {
                match lowered_arguments(env, arguments, types, 0, Seq::empty(), depth) {
                    Err(error) => Err(error),
                    Ok(values) => Ok(
                        TypedExprView::Call {
                            function: env.ctx.ids[i],
                            name,
                            arguments: values,
                            parameter_types: types,
                            ty: resolved(env.ctx, f.return_type),
                            span,
                        },
                    ),
                }
            }
        },
    }
}

/// `make_slice(pointer, length)`.
pub open spec fn lowered_make_slice(
    env: Env,
    name: Seq<char>,
    arguments: Seq<ExprView>,
    span: Span,
    depth: nat,
) -> Lowered
    decreases depth, arguments, 0int,
{
    if arguments.len() != 2 {
        Err(wrong_count(name, 2, arguments.len(), span))
    } else {
        let wanted = if arguments[0] is Null {
            Some(ResolvedType::Pointer(Box::new(sized(8, false))))
        } else {
            None
        };
        match lowered(env, arguments[0], wanted, depth) {
            Err(error) => Err(error),
            Ok(pointer) => match lowered(env, arguments[1], Some(pointer_sized(false)), depth) {
                Err(error) => Err(error),
                Ok(length) => sliced(pointer, length, span),
            },
        }
    }
}

/// An access to memory: a fence, a load from a pointer, or a store through
/// one.
pub open spec fn lowered_low_level(
    env: Env,
    name: Seq<char>,
    operation: LowLevelOperation,
    arguments: Seq<ExprView>,
    span: Span,
    depth: nat,
) -> Lowered
    decreases depth, arguments, 0int,
{
    if arguments.len() != operand_count(operation) {
        Err(wrong_count(name, operand_count(operation), arguments.len(), span))
    } else if arguments.len() == 0 {
        Ok(
            TypedExprView::LowLevel {
                operation,
                arguments: Seq::empty(),
                ty: ResolvedType::Unit,
                span,
            },
        )
    } else {
        match lowered(env, arguments[0], None, depth) {
            Err(error) => Err(error),
            Ok(pointer) => match pointer.ty() {
                ResolvedType::Pointer(element) => if arguments.len() == 1 {
                    Ok(
                        TypedExprView::LowLevel {
                            operation,
                            arguments: seq![pointer],
                            ty: *element,
                            span,
                        },
                    )
                } else {
                    match lowered(env, arguments[1], Some(*element), depth) {
                        Err(error) => Err(error),
                        Ok(value) => Ok(
                            TypedExprView::LowLevel {
                                operation,
                                arguments: seq![pointer, value],
                                ty: ResolvedType::Unit,
                                span,
                            },
                        ),
                    }
                },
                _ => Err(bad_operand(name + " requires a pointer argument"@, span)),
            },
        }
    }
}

/// `is_err`, `unwrap`, `return_ok` and `return_err`. The first argument must
/// make sense by itself, and, for the last two, as what the function returns.
pub open spec fn lowered_result_builtin(
    env: Env,
    name: Seq<char>,
    intrinsic: Intrinsic,
    arguments: Seq<ExprView>,
    span: Span,
    depth: nat,
) -> Lowered
    decreases depth, arguments, 0int,
{
    match (if arguments.len() > 0 {
        match lowered(env, arguments[0], None, depth) {
            Err(error) => Err(error),
            Ok(value) => Ok(Some(value)),
        }
    } else {
        Ok(None)
    }) {
        Err(error) => Err(error),
        Ok(first) => match intrinsic {
            Intrinsic::IsErr => if arguments.len() != 1 {
                Err(wrong_count(name, 1, arguments.len(), span))
            } else {
                Ok(
                    TypedExprView::IsErr {
                        value: Box::new(first.unwrap()),
                        ty: ResolvedType::Bool,
                        span,
                    },
                )
            },
            Intrinsic::Unwrap => if arguments.len() != 1 {
                Err(wrong_count(name, 1, arguments.len(), span))
            } else {
                match first.unwrap().ty() {
                    ResolvedType::Result { success, .. } => Ok(
                        TypedExprView::Unwrap {
                            value: Box::new(first.unwrap()),
                            ty: *success,
                            span,
                        },
                    ),
                    _ => Err(bad_operand("unwrap requires a result value"@, span)),
                }
            },
            _ => match env.output {
                ResolvedType::Result { success, error } => {
                    let good = intrinsic == Intrinsic::ReturnOk;
                    let wanted = if good {
                        *success
                    } else {
                        *error
                    };
                    match (if arguments.len() > 0 {
                        lowered(env, arguments[0], Some(wanted), depth)
                    } else {
                        Ok(TypedExprView::Integer { value: 0, ty: sized(8, false), span })
                    }) {
                        Err(error) => Err(error),
                        Ok(value) => Ok(
                            if good {
                                TypedExprView::ResultOk {
                                    value: Box::new(value),
                                    ty: env.output,
                                    span,
                                }
                            } else {
                                TypedExprView::ResultErr {
                                    value: Box::new(value),
                                    ty: env.output,
                                    span,
                                }
                            },
                        ),
                    }
                },
                _ => Err(
                    SemanticErrorView::InvalidPropagation {
                        message: "return_ok/return_err requires a result return type"@,
                        span,
                    },
                ),
            },
        },
    }
}

/// The typed place of an expression.
pub open spec fn lowered_place(env: Env, e: ExprView, depth: nat) -> Result<
    TypedPlaceView,
    SemanticErrorView,
>
    decreases
            depth,
            e,
            (if is_place(e) {
                0int
            } else {
                1int
            }),
{
    match e {
        ExprView::Identifier { name, span } => match binding_of(
            env.locals,
            env.locals.len() as int,
            name,
        ) {
            Some(binding) => Ok(TypedPlaceView::Local { id: binding.id, ty: binding.ty }),
            None => match env.ctx.find(name, Sort::Variable) {
                Some(i) => Ok(
                    TypedPlaceView::Global {
                        id: env.ctx.ids[i],
                        name,
                        ty: resolved(env.ctx, env.ctx.types[i]),
                    },
                ),
                None => Err(SemanticErrorView::UndefinedName { name, span }),
            },
        },
        ExprView::Field { base, name, span } => match lowered_place(env, *base, depth) {
            Err(error) => Err(error),
            Ok(place) => field_place(env.ctx, place, name, span),
        },
        ExprView::Unary { operator, operand, span } => if operator == UnaryOp::Dereference {
            match lowered(env, *operand, None, depth) {
                Err(error) => Err(error),
                Ok(pointer) => target_place(env.ctx, pointer, span),
            }
        } else {
            match lowered(env, e, None, depth) {
                Err(error) => Err(error),
                Ok(value) => Ok(temporary(value)),
            }
        },
        ExprView::Index { base, index, span } => match lowered_place(env, *base, depth) {
            Err(error) => Err(error),
            Ok(place) => match element_type(env.ctx, place, span) {
                Err(error) => Err(error),
                Ok((element, length)) => if out_of_bounds(plain_integer(env.ctx, *index), length) {
                    Err(
                        SemanticErrorView::InvalidLiteral {
                            message: "array index is out of bounds"@,
                            span: index.span(),
                        },
                    )
                } else {
                    match lowered(env, *index, Some(pointer_sized(false)), depth) {
                        Err(error) => Err(error),
                        Ok(value) => Ok(element_place(place, value, element, length, true)),
                    }
                },
            },
        },
        ExprView::UncheckedIndex { base, index, span } => match lowered_place(env, *base, depth) {
            Err(error) => Err(error),
            Ok(place) => match element_type(env.ctx, place, span) {
                Err(error) => Err(error),
                Ok((element, length)) => match lowered(
                    env,
                    *index,
                    Some(pointer_sized(false)),
                    depth,
                ) {
                    Err(error) => Err(error),
                    Ok(value) => Ok(element_place(place, value, element, length, false)),
                },
            },
        },
        _ => match lowered(env, e, None, depth) {
            Err(error) => Err(error),
            Ok(value) => Ok(temporary(value)),
        },
    }
}

/// The values of a struct's fields from `i` on, in the order in which the
/// struct declares them.
pub open spec fn lowered_fields(
    env: Env,
    name: Seq<char>,
    fields: Seq<StructFieldView>,
    inits: Seq<StructInitView>,
    i: int,
    before: Seq<TypedExprView>,
    span: Span,
    depth: nat,
) -> Result<Seq<TypedExprView>, SemanticErrorView>
    decreases depth, inits, fields.len() - i,
{
    if i < 0 || i >= fields.len() {
        Ok(before)
    } else {
        match init_index(inits, 0, fields[i].name) {
            None => Err(
                bad_operand("missing field `"@ + fields[i].name + "` in `"@ + name + "`"@, span),
            ),
            Some(k) => if 0 <= k < inits.len() {
                match lowered(env, inits[k].value, Some(resolved(env.ctx, fields[i].ty)), depth) {
                    Err(error) => Err(error),
                    Ok(value) => lowered_fields(
                        env,
                        name,
                        fields,
                        inits,
                        i + 1,
                        before.push(value),
                        span,
                        depth,
                    ),
                }
            } else {
                Err(arbitrary())
            },
        }
    }
}

/// The values of a list of expressions of one type, from `i` on.
pub open spec fn lowered_elements(
    env: Env,
    es: Seq<ExprView>,
    ty: ResolvedType,
    i: int,
    before: Seq<TypedExprView>,
    depth: nat,
) -> Result<Seq<TypedExprView>, SemanticErrorView>
    decreases depth, es, es.len() - i,
{
    if i < 0 || i >= es.len() {
        Ok(before)
    } else {
        match lowered(env, es[i], Some(ty), depth) {
            Err(error) => Err(error),
            Ok(value) => lowered_elements(env, es, ty, i + 1, before.push(value), depth),
        }
    }
}

/// The values of a list of arguments, each of its own type, from `i` on.
pub open spec fn lowered_arguments(
    env: Env,
    es: Seq<ExprView>,
    types: Seq<ResolvedType>,
    i: int,
    before: Seq<TypedExprView>,
    depth: nat,
) -> Result<Seq<TypedExprView>, SemanticErrorView>
    decreases depth, es, es.len() - i,
{
    if i < 0 || i >= es.len() {
        Ok(before)
    } else {
        match lowered(env, es[i], Some(types[i]), depth) {
            Err(error) => Err(error),
            Ok(value) => lowered_arguments(env, es, types, i + 1, before.push(value), depth),
        }
    }
}

/// The value of a local or a mutable global; the error of one that has
/// another type than expected. Nothing for a constant or an unknown name.
pub open spec fn named_value(
    env: Env,
    name: Seq<char>,
    expected: Option<ResolvedType>,
    span: Span,
) -> Option<Lowered> {
    match binding_of(env.locals, env.locals.len() as int, name) {
        Some(binding) => Some(
            if_expected(
                env.ctx,
                expected,
                TypedExprView::Load { id: binding.id, name, ty: binding.ty, span },
                span,
            ),
        ),
        None => match env.ctx.find(name, Sort::Variable) {
            None => None,
            Some(i) => {
                let ty = resolved(env.ctx, env.ctx.types[i]);
                match expected_type(env.ctx, expected, ty, span) {
                    Err(error) => Some(Err(error)),
                    Ok(()) => if env.ctx.decls[i]->Variable_0.kind == VariableKind::Immutable {
                        None
                    } else {
                        Some(
                            Ok(TypedExprView::GlobalLoad { id: env.ctx.ids[i], name, ty, span }),
                        )
                    },
                }
            },
        },
    }
}

/// The type of a variable at the top level, by its form or as inferred from
/// all declarations.
pub open spec fn variable_type(ctx: Context, v: VariableDeclView) -> ResolvedType {
    match v.ty {
        Some(ty) => resolved(ctx, ty),
        None => resolved(ctx, inferred(ctx.decls, ctx.types, ctx.decls.len() as int, v.value)),
    }
}

/// `?` on a result value. It hands an error on to the caller, so the function
/// around gives a result with errors of the same type. Only `main` has no
/// caller: where it gives an exit code, an error ends the program.
pub open spec fn propagated(env: Env, value: TypedExprView, span: Span) -> Lowered {
    match value.ty() {
        ResolvedType::Result { success, error } => match env.output {
            ResolvedType::Result { error: own, .. } => if own != error {
                Err(
                    SemanticErrorView::InvalidPropagation {
                        message:
                            "propagated error type is incompatible with the current return type"@,
                        span,
                    },
                )
            } else {
                Ok(TypedExprView::Propagate { value: Box::new(value), ty: *success, span })
            },
            output => if env.is_main && output == sized(32, true) {
                Ok(TypedExprView::Propagate { value: Box::new(value), ty: *success, span })
            } else {
                Err(
                    SemanticErrorView::InvalidPropagation {
                        message: "`?` requires a result-returning function"@,
                        span,
                    },
                )
            },
        },
        _ => Err(
            SemanticErrorView::InvalidPropagation {
                message: "`?` requires a result value"@,
                span,
            },
        ),
    }
}

pub open spec fn layout_query(
    ctx: Context,
    kind: LayoutKind,
    ty: TypeView,
    field: Option<Seq<char>>,
    span: Span,
) -> TypedExprView {
    TypedExprView::Layout {
        kind,
        ty: pointer_sized(false),
        target: resolved(ctx, ty),
        field,
        span,
    }
}

pub open spec fn is_logical(operator: BinaryOp) -> bool {
    operator == BinaryOp::LogicalAnd || operator == BinaryOp::LogicalOr
}

/// What is expected of the left operand. A literal takes the type that is
/// expected of the whole, where that is a number.
pub open spec fn left_expectation(
    operator: BinaryOp,
    left: ExprView,
    expected: Option<ResolvedType>,
) -> Option<ResolvedType> {
    if is_logical(operator) {
        Some(ResolvedType::Bool)
    } else if left is Integer || left is Float {
        match expected {
            Some(wanted) => if wanted is Integer || wanted is Float {
                Some(wanted)
            } else {
                None
            },
            None => None,
        }
    } else {
        None
    }
}

/// Whether an operator moves a pointer.
pub open spec fn moves(operator: BinaryOp) -> bool {
    operator == BinaryOp::Add || operator == BinaryOp::Subtract
}

/// What is expected of the right operand: the type of the left one, or a
/// distance for a literal that a pointer is moved by.
pub open spec fn right_expectation(
    operator: BinaryOp,
    left: ResolvedType,
    right: ExprView,
) -> Option<ResolvedType> {
    if is_logical(operator) {
        Some(ResolvedType::Bool)
    } else if left is Pointer && moves(operator) && right is Integer {
        Some(pointer_sized(false))
    } else {
        Some(left)
    }
}

/// Two typed operands under an operator.
pub open spec fn combined(
    ctx: Context,
    operator: BinaryOp,
    a: TypedExprView,
    b: TypedExprView,
    expected: Option<ResolvedType>,
    right_span: Span,
    span: Span,
) -> Lowered {
    let operand_type = a.ty();
    let boolean = is_logical(operator) || compares(operator);
    let arithmetic = operand_type is Pointer && moves(operator) && b.ty() is Integer;
    if !boolean && !arithmetic && b.ty() != operand_type {
        Err(
            SemanticErrorView::TypeMismatch {
                expected: written(ctx, operand_type),
                found: written(ctx, b.ty()),
                span: right_span,
            },
        )
    } else {
        let ty = if boolean {
            ResolvedType::Bool
        } else if operand_type is Pointer && b.ty() is Pointer && operator == BinaryOp::Subtract {
            pointer_sized(true)
        } else {
            operand_type
        };
        if_expected(
            ctx,
            expected,
            TypedExprView::Binary {
                left: Box::new(a),
                operator,
                right: Box::new(b),
                ty,
                operand_type,
                span,
            },
            span,
        )
    }
}

pub open spec fn wrong_count(
    name: Seq<char>,
    expected: nat,
    found: nat,
    span: Span,
) -> SemanticErrorView {
    SemanticErrorView::WrongArgumentCount {
        name,
        expected: expected as usize,
        found: found as usize,
        span,
    }
}

/// How many operands an access to memory has.
pub open spec fn operand_count(operation: LowLevelOperation) -> nat {
    match operation {
        LowLevelOperation::Fence => 0,
        LowLevelOperation::VolatileLoad => 1,
        LowLevelOperation::AtomicLoad => 1,
        LowLevelOperation::VolatileStore => 2,
        LowLevelOperation::AtomicStore => 2,
    }
}

pub open spec fn sliced(pointer: TypedExprView, length: TypedExprView, span: Span) -> Lowered {
    match pointer.ty() {
        ResolvedType::Pointer(element) => Ok(
            TypedExprView::MakeSlice {
                pointer: Box::new(pointer),
                length: Box::new(length),
                element: *element,
                ty: ResolvedType::Slice(element),
                span,
            },
        ),
        _ => Err(bad_operand("make_slice requires a pointer argument"@, span)),
    }
}

pub open spec fn parameter_types(ctx: Context, params: Seq<ParameterView>) -> Seq<ResolvedType> {
    Seq::new(params.len(), |i: int| resolved(ctx, params[i].ty))
}

/// The place of a field of what is stored in a place.
pub open spec fn field_place(
    ctx: Context,
    place: TypedPlaceView,
    name: Seq<char>,
    span: Span,
) -> Result<TypedPlaceView, SemanticErrorView> {
    match written(ctx, place.ty()) {
        TypeView::Named(s) => match ctx.find(s, Sort::Struct) {
            None => Err(SemanticErrorView::UnknownType { name: s, span }),
            Some(i) => {
                let fields = ctx.decls[i]->Struct_0.fields;
                match field_index(fields, 0, name) {
                    None => Err(bad_operand("unknown field `"@ + name + "`"@, span)),
                    Some(k) => Ok(
                        TypedPlaceView::Field {
                            base: Box::new(place),
                            index: (k % 0x1_0000_0000) as u32,
                            ty: resolved(ctx, fields[k].ty),
                        },
                    ),
                }
            },
        },
        _ => Err(SemanticErrorView::InvalidAssignmentTarget { span }),
    }
}

/// The place that a pointer points at.
pub open spec fn target_place(ctx: Context, pointer: TypedExprView, span: Span) -> Result<
    TypedPlaceView,
    SemanticErrorView,
> {
    match written(ctx, pointer.ty()) {
        TypeView::Pointer(element) => Ok(
            TypedPlaceView::Dereference {
                pointer: Box::new(pointer),
                ty: resolved(ctx, *element),
            },
        ),
        _ => Err(SemanticErrorView::InvalidAssignmentTarget { span }),
    }
}

/// The type of the elements stored in a place, and how many there are where
/// the type says so.
pub open spec fn element_type(ctx: Context, place: TypedPlaceView, span: Span) -> Result<
    (ResolvedType, Option<u64>),
    SemanticErrorView,
> {
    match written(ctx, place.ty()) {
        TypeView::Array { length, element } => Ok((resolved(ctx, *element), Some(length))),
        TypeView::Slice(element) => Ok((resolved(ctx, *element), None)),
        _ => Err(SemanticErrorView::InvalidAssignmentTarget { span }),
    }
}

pub open spec fn element_place(
    place: TypedPlaceView,
    index: TypedExprView,
    ty: ResolvedType,
    length: Option<u64>,
    checked: bool,
) -> TypedPlaceView {
    TypedPlaceView::Index { base: Box::new(place), index: Box::new(index), ty, length, checked }
}

/// A value put into storage.
pub open spec fn temporary(value: TypedExprView) -> TypedPlaceView {
    TypedPlaceView::Temporary { value: Box::new(value), ty: value.ty() }
}

/// Whether a place can be assigned to.
pub open spec fn place_is_mutable(env: Env, place: TypedPlaceView) -> bool
    decreases place,
{
    match place {
        TypedPlaceView::Local { id, .. } => local_is_mutable(
            env.locals,
            env.locals.len() as int,
            id,
        ),
        TypedPlaceView::Global { name, .. } => match env.ctx.find(name, Sort::Variable) {
            Some(i) => env.ctx.decls[i]->Variable_0.kind != VariableKind::Immutable,
            None => false,
        },
        TypedPlaceView::Temporary { .. } => false,
        TypedPlaceView::Field { base, .. } => place_is_mutable(env, *base),
        TypedPlaceView::Index { base, .. } => place_is_mutable(env, *base),
        TypedPlaceView::Dereference { .. } => true,
    }
}

// ---------------------------------------------------------------------------
// Constants
// ---------------------------------------------------------------------------

/// How many bits pointers have on the machine that folds constants.
pub open spec fn folding_width(ty: ResolvedType) -> nat {
    match ty {
        ResolvedType::Integer { width, .. } => match width {
            IntegerWidth::Bits(bits) => bits as nat,
            IntegerWidth::Pointer => usize::BITS as nat,
        },
        _ => 128,
    }
}

/// A number as constants of a type hold it.
pub open spec fn folded_integer(v: int, ty: ResolvedType) -> i128 {
    held(v, folding_width(ty), ty.signed()) as i128
}

/// The least number of a signed type.
pub open spec fn least(width: nat) -> int {
    if width >= 128 {
        i128::MIN as int
    } else if width == 0 {
        0
    } else {
        -pow2((width - 1) as nat)
    }
}

/// The amount of a shift, where the operand is that wide.
pub open spec fn shift_amount(b: int, width: nat) -> Option<nat> {
    if 0 <= b < width && b < 128 {
        Some(b as nat)
    } else {
        None
    }
}

/// How two constants of a type compare.
pub open spec fn folded_comparison(operator: BinaryOp, a: int, b: int, signed: bool) -> bool {
    let (x, y) = if signed {
        (a, b)
    } else {
        (low(a, 128), low(b, 128))
    };
    match operator {
        BinaryOp::Equal => x == y,
        BinaryOp::NotEqual => x != y,
        BinaryOp::Less => x < y,
        BinaryOp::LessEqual => x <= y,
        BinaryOp::Greater => x > y,
        _ => x >= y,
    }
}

/// What an operator makes of two constants of a type, where it has a value.
pub open spec fn folded_binary(
    operator: BinaryOp,
    a: int,
    b: int,
    ty: ResolvedType,
) -> Option<int> {
    let width = folding_width(ty);
    let signed = ty.signed();
    let undivided = b == 0 || (signed && a == least(width) && b == -1);
    match operator {
        BinaryOp::Add => Some(a + b),
        BinaryOp::Subtract => Some(a - b),
        BinaryOp::Multiply => Some(a * b),
        BinaryOp::BitwiseAnd => Some(((low(a, 128) as u128) & (low(b, 128) as u128)) as int),
        BinaryOp::BitwiseOr => Some(((low(a, 128) as u128) | (low(b, 128) as u128)) as int),
        BinaryOp::BitwiseXor => Some(((low(a, 128) as u128) ^ (low(b, 128) as u128)) as int),
        BinaryOp::ShiftLeft => match shift_amount(b, width) {
            Some(n) => Some(low(a, 128) * pow2(n)),
            None => None,
        },
        BinaryOp::ShiftRight => match shift_amount(b, width) {
            Some(n) => if signed {
                Some(a / (pow2(n) as int))
            } else {
                Some(low(a, 128) / (pow2(n) as int))
            },
            None => None,
        },
        BinaryOp::Divide => if undivided {
            None
        } else if signed {
            Some(quotient(a, b))
        } else {
            Some(low(a, 128) / low(b, 128))
        },
        BinaryOp::Modulo => if undivided {
            None
        } else if signed {
            Some(remainder(a, b))
        } else {
            Some(low(a, 128) % low(b, 128))
        },
        _ => None,
    }
}

/// Two folded operands under an operator.
pub open spec fn folded_pair(
    m: FloatModel,
    left: TypedExprView,
    operator: BinaryOp,
    right: TypedExprView,
    ty: ResolvedType,
    operand_type: ResolvedType,
    span: Span,
) -> TypedExprView {
    let unfolded = TypedExprView::Binary {
        left: Box::new(left),
        operator,
        right: Box::new(right),
        ty,
        operand_type,
        span,
    };
    match (left, right) {
        (
            TypedExprView::Integer { value: x, .. },
            TypedExprView::Integer { value: y, .. },
        ) => {
            let a = folded_integer(x as int, operand_type);
            let b = folded_integer(y as int, operand_type);
            if compares(operator) {
                TypedExprView::Bool {
                    value: folded_comparison(operator, a as int, b as int, operand_type.signed()),
                    ty,
                    span,
                }
            } else {
                match folded_binary(operator, a as int, b as int, operand_type) {
                    Some(result) => TypedExprView::Integer {
                        value: folded_integer(result, operand_type),
                        ty,
                        span,
                    },
                    None => unfolded,
                }
            }
        },
        (TypedExprView::Float { value: a, .. }, TypedExprView::Float { value: b, .. }) => {
            match float_question(operator) {
                Some(question) => if compares(operator) {
                    TypedExprView::Bool { value: m(question, a, b).1, ty, span }
                } else {
                    TypedExprView::Float { value: m(question, a, b).0, ty, span }
                },
                None => unfolded,
            }
        },
        (TypedExprView::Bool { value: a, .. }, TypedExprView::Bool { value: b, .. }) => {
            match operator {
                BinaryOp::LogicalAnd => TypedExprView::Bool { value: a && b, ty, span },
                BinaryOp::LogicalOr => TypedExprView::Bool { value: a || b, ty, span },
                BinaryOp::Equal => TypedExprView::Bool { value: a == b, ty, span },
                BinaryOp::NotEqual => TypedExprView::Bool { value: a != b, ty, span },
                _ => unfolded,
            }
        },
        _ => unfolded,
    }
}

/// A folded operand under a prefix operator.
pub open spec fn folded_operand(
    operator: UnaryOp,
    operand: TypedExprView,
    ty: ResolvedType,
    span: Span,
) -> TypedExprView {
    match (operator, operand) {
        (UnaryOp::Negate, TypedExprView::Integer { value, .. }) => TypedExprView::Integer {
            value: folded_integer(-value, ty),
            ty,
            span,
        },
        (UnaryOp::Negate, TypedExprView::Float { value, .. }) => TypedExprView::Float {
            value: negated(value),
            ty,
            span,
        },
        (UnaryOp::Not, TypedExprView::Bool { value, .. }) => TypedExprView::Bool {
            value: !value,
            ty,
            span,
        },
        (UnaryOp::BitwiseNot, TypedExprView::Bool { value, .. }) => TypedExprView::Bool {
            value: !value,
            ty,
            span,
        },
        (UnaryOp::BitwiseNot, TypedExprView::Integer { value, .. }) => TypedExprView::Integer {
            value: folded_integer(-1 - value, ty),
            ty,
            span,
        },
        _ => TypedExprView::Unary { operator, operand: Box::new(operand), ty, span },
    }
}

/// An expression with its operators on literals worked out.
pub open spec fn folded(m: FloatModel, e: TypedExprView) -> TypedExprView
    decreases e,
{
    match e {
        TypedExprView::Unary { operator, operand, ty, span } => folded_operand(
            operator,
            folded(m, *operand),
            ty,
            span,
        ),
        TypedExprView::StructLiteral { ty, fields, span } => TypedExprView::StructLiteral {
            ty,
            fields: all_folded(m, fields),
            span,
        },
        TypedExprView::ArrayLiteral { ty, elements, span } => TypedExprView::ArrayLiteral {
            ty,
            elements: all_folded(m, elements),
            span,
        },
        TypedExprView::Binary { left, operator, right, ty, operand_type, span } => folded_pair(
            m,
            folded(m, *left),
            operator,
            folded(m, *right),
            ty,
            operand_type,
            span,
        ),
        _ => e,
    }
}

pub open spec fn all_folded(m: FloatModel, es: Seq<TypedExprView>) -> Seq<TypedExprView>
    decreases es,
{
    Seq::new(
        es.len(),
        |i: int|
            if 0 <= i < es.len() {
                folded(m, es[i])
            } else {
                arbitrary()
            },
    )
}

/// Whether an expression asks for a layout.
pub open spec fn asks_layout(e: TypedExprView) -> bool
    decreases e,
{
    match e {
        TypedExprView::Layout { .. } => true,
        TypedExprView::Unary { operand, .. } => asks_layout(*operand),
        TypedExprView::Binary { left, right, .. } => asks_layout(*left) || asks_layout(*right),
        TypedExprView::StructLiteral { fields, .. } => any_asks_layout(fields),
        TypedExprView::ArrayLiteral { elements, .. } => any_asks_layout(elements),
        _ => false,
    }
}

pub open spec fn any_asks_layout(es: Seq<TypedExprView>) -> bool
    decreases es,
{
    exists|i: int| 0 <= i < es.len() && asks_layout(#[trigger] es[i])
}

/// Whether an expression is a literal, or a layout that is known later.
pub open spec fn is_literal(e: TypedExprView) -> bool
    decreases e,
{
    match e {
        TypedExprView::Integer { .. } => true,
        TypedExprView::Float { .. } => true,
        TypedExprView::Bool { .. } => true,
        TypedExprView::Layout { .. } => true,
        TypedExprView::StructLiteral { fields, .. } => all_literal(fields),
        TypedExprView::ArrayLiteral { elements, .. } => all_literal(elements),
        _ => false,
    }
}

pub open spec fn all_literal(es: Seq<TypedExprView>) -> bool
    decreases es,
{
    forall|i: int| 0 <= i < es.len() ==> is_literal(#[trigger] es[i])
}

/// The value that a variable at the top level starts with.
pub open spec fn initial_value(
    m: FloatModel,
    ctx: Context,
    e: ExprView,
    expected: ResolvedType,
) -> Lowered {
    let env = Env { ctx, is_main: false, output: ResolvedType::Unit, locals: Seq::empty() };
    match lowered(env, e, Some(expected), ctx.decls.len()) {
        Err(error) => Err(error),
        Ok(typed) => {
            let value = folded(m, typed);
            if !asks_layout(value) && typed_eval::value_of(m, value) is Err {
                Err(
                    bad_operand(
                        "global initializer is not supported by the typed evaluator"@,
                        e.span(),
                    ),
                )
            } else if !is_literal(value) {
                Err(
                    bad_operand(
                        "global initializer must be a compile-time evaluable constant"@,
                        e.span(),
                    ),
                )
            } else {
                Ok(value)
            }
        },
    }
}

// ---------------------------------------------------------------------------
// Statements
// ---------------------------------------------------------------------------

/// The local variables of a function so far: those in scope, where the
/// innermost scope starts among them, and the next free identity.
pub ghost struct Frame {
    pub locals: Seq<BindingView>,
    pub start: int,
    pub next: u32,
}

/// The identity after another one.
pub open spec fn next_local(n: u32) -> u32 {
    if n == u32::MAX {
        0
    } else {
        (n + 1) as u32
    }
}

/// Whether the innermost scope declares the name.
pub open spec fn declared_in_scope(frame: Frame, name: Seq<char>) -> bool {
    exists|i: int|
        frame.start <= i < frame.locals.len() && 0 <= i && (#[trigger] frame.locals[i]).name
            == name
}

/// The frame with one more variable in its innermost scope.
pub open spec fn with_local(
    frame: Frame,
    name: Seq<char>,
    ty: ResolvedType,
    mutable: bool,
    span: Span,
) -> Result<(LocalId, Frame), SemanticErrorView> {
    if declared_in_scope(frame, name) {
        Err(SemanticErrorView::DuplicateName { name, span })
    } else {
        let id = LocalId(frame.next);
        Ok(
            (
                id,
                Frame {
                    locals: frame.locals.push(BindingView { name, id, ty, mutable }),
                    start: frame.start,
                    next: next_local(frame.next),
                },
            ),
        )
    }
}

/// Where a statement stands: what is declared, what its function returns, and
/// whether a loop is around it.
pub ghost struct Place {
    pub ctx: Context,
    pub is_main: bool,
    pub output: ResolvedType,
    pub in_loop: bool,
}

pub open spec fn env_of(place: Place, frame: Frame) -> Env {
    Env {
        ctx: place.ctx,
        is_main: place.is_main,
        output: place.output,
        locals: frame.locals,
    }
}

/// An expression in a statement.
pub open spec fn lowered_in(
    place: Place,
    frame: Frame,
    e: ExprView,
    expected: Option<ResolvedType>,
) -> Lowered {
    lowered(env_of(place, frame), e, expected, place.ctx.decls.len())
}

/// How an error names what was to be assigned to.
pub open spec fn target_name(e: ExprView) -> Seq<char> {
    match e {
        ExprView::Identifier { name, .. } => name,
        ExprView::Field { name, .. } => name,
        _ => "value"@,
    }
}

/// The typed form of a statement, and the local variables after it.
pub open spec fn lowered_statement(place: Place, frame: Frame, s: StmtView) -> Result<
    (TypedStmtView, Frame),
    SemanticErrorView,
>
    decreases s,
{
    match s {
        StmtView::If { condition, then_branch, else_branch, span } => match lowered_in(
            place,
            frame,
            condition,
            Some(ResolvedType::Bool),
        ) {
            Err(error) => Err(error),
            Ok(test) => match lowered_block(place, frame, then_branch) {
                Err(error) => Err(error),
                Ok((yes, after)) => match else_branch {
                    None => Ok(
                        (
                            TypedStmtView::If {
                                condition: test,
                                then_branch: yes,
                                else_branch: None,
                                span,
                            },
                            after,
                        ),
                    ),
                    Some(branch) => match lowered_block(place, after, branch) {
                        Err(error) => Err(error),
                        Ok((no, last)) => Ok(
                            (
                                TypedStmtView::If {
                                    condition: test,
                                    then_branch: yes,
                                    else_branch: Some(no),
                                    span,
                                },
                                last,
                            ),
                        ),
                    },
                },
            },
        },
        StmtView::While { condition, body, span } => match lowered_in(
            place,
            frame,
            condition,
            Some(ResolvedType::Bool),
        ) {
            Err(error) => Err(error),
            Ok(test) => match lowered_block(Place { in_loop: true, ..place }, frame, body) {
                Err(error) => Err(error),
                Ok((inner, after)) => Ok(
                    (TypedStmtView::While { condition: test, body: inner, span }, after),
                ),
            },
        },
        StmtView::Break { span } => if place.in_loop {
            Ok((TypedStmtView::Break { span }, frame))
        } else {
            Err(SemanticErrorView::BreakOutsideLoop { span })
        },
        StmtView::Continue { span } => if place.in_loop {
            Ok((TypedStmtView::Continue { span }, frame))
        } else {
            Err(SemanticErrorView::ContinueOutsideLoop { span })
        },
        StmtView::Defer { call, span } => match lowered_in(place, frame, call, None) {
            Err(error) => Err(error),
            Ok(TypedExprView::Call { function, name, arguments, .. }) => Ok(
                (TypedStmtView::Defer { function, name, arguments, span }, frame),
            ),
            Ok(_) => Err(
                SemanticErrorView::InvalidDefer {
                    message: "defer requires a named function call"@,
                    span,
                },
            ),
        },
        StmtView::Return { value, span } => match value {
            None => Ok((TypedStmtView::Return { value: None, span }, frame)),
            Some(e) => match lowered_in(place, frame, e, Some(place.output)) {
                Err(error) => Err(error),
                Ok(typed) => Ok((TypedStmtView::Return { value: Some(typed), span }, frame)),
            },
        },
        StmtView::Variable(v) => {
            let declared = match v.ty {
                Some(ty) => Some(resolved(place.ctx, ty)),
                None => None,
            };
            match lowered_in(place, frame, v.value, declared) {
                Err(error) => Err(error),
                Ok(value) => {
                    let ty = match declared {
                        Some(ty) => ty,
                        None => value.ty(),
                    };
                    let mutable = v.kind != VariableKind::Immutable;
                    match with_local(frame, v.name, ty, mutable, v.span) {
                        Err(error) => Err(error),
                        Ok((id, after)) => Ok(
                            (
                                TypedStmtView::Declare {
                                    id,
                                    name: v.name,
                                    ty,
                                    mutable,
                                    value,
                                    span: v.span,
                                },
                                after,
                            ),
                        ),
                    }
                },
            }
        },
        StmtView::Assignment { target, value, span } => match lowered_place(
            env_of(place, frame),
            target,
            place.ctx.decls.len(),
        ) {
            Err(error) => Err(error),
            Ok(stored) => if !place_is_mutable(env_of(place, frame), stored) {
                Err(SemanticErrorView::ImmutableAssignment { name: target_name(target), span })
            } else {
                match lowered_in(place, frame, value, Some(stored.ty())) {
                    Err(error) => Err(error),
                    Ok(typed) => Ok(
                        (
                            TypedStmtView::Store {
                                target: stored,
                                value: typed,
                                ty: stored.ty(),
                                span,
                            },
                            frame,
                        ),
                    ),
                }
            },
        },
        StmtView::Expr { expression, span } => match lowered_in(place, frame, expression, None) {
            Err(error) => Err(error),
            Ok(typed) => Ok((TypedStmtView::Expr { expression: typed, span }, frame)),
        },
    }
}

/// A block with a scope of its own: its variables are gone after it.
pub open spec fn lowered_block(place: Place, frame: Frame, b: BlockView) -> Result<
    (TypedBlockView, Frame),
    SemanticErrorView,
>
    decreases b,
{
    let inner = Frame {
        locals: frame.locals,
        start: frame.locals.len() as int,
        next: frame.next,
    };
    match lowered_statements(place, inner, b.statements, 0, Seq::empty()) {
        Err(error) => Err(error),
        Ok((statements, after)) => Ok(
            (
                TypedBlockView { statements, span: b.span },
                Frame { locals: frame.locals, start: frame.start, next: after.next },
            ),
        ),
    }
}

/// The statements from `i` on, after those before it.
pub open spec fn lowered_statements(
    place: Place,
    frame: Frame,
    statements: Seq<StmtView>,
    i: int,
    before: Seq<TypedStmtView>,
) -> Result<(Seq<TypedStmtView>, Frame), SemanticErrorView>
    decreases statements, statements.len() - i,
{
    if i < 0 || i >= statements.len() {
        Ok((before, frame))
    } else {
        match lowered_statement(place, frame, statements[i]) {
            Err(error) => Err(error),
            Ok((typed, after)) => lowered_statements(
                place,
                after,
                statements,
                i + 1,
                before.push(typed),
            ),
        }
    }
}

/// Whether control can reach the end of a block.
pub open spec fn falls_through(b: BlockView) -> bool
    decreases b,
{
    if b.statements.len() == 0 {
        true
    } else {
        match b.statements[b.statements.len() - 1] {
            StmtView::Return { .. } => false,
            StmtView::Break { .. } => false,
            StmtView::Continue { .. } => false,
            StmtView::If { then_branch, else_branch, .. } => match else_branch {
                Some(branch) => falls_through(then_branch) || falls_through(branch),
                None => true,
            },
            StmtView::While { condition, body, .. } => !(condition matches ExprView::Bool {
                value,
                ..
            } && value && !breaks(body)),
            _ => true,
        }
    }
}

/// Whether a `break` stands in a block, at any depth.
pub open spec fn breaks(b: BlockView) -> bool
    decreases b,
{
    exists|i: int| 0 <= i < b.statements.len() && statement_breaks(#[trigger] b.statements[i])
}

pub open spec fn statement_breaks(s: StmtView) -> bool
    decreases s,
{
    match s {
        StmtView::Break { .. } => true,
        StmtView::If { then_branch, else_branch, .. } => breaks(then_branch) || match else_branch {
            Some(branch) => breaks(branch),
            None => false,
        },
        StmtView::While { body, .. } => breaks(body),
        _ => false,
    }
}

// ---------------------------------------------------------------------------
// Functions and programs
// ---------------------------------------------------------------------------

/// The parameters from `i` on, as local variables that can be assigned to.
pub open spec fn lowered_parameters(
    ctx: Context,
    frame: Frame,
    params: Seq<ParameterView>,
    i: int,
    before: Seq<TypedParameterView>,
) -> Result<(Seq<TypedParameterView>, Frame), SemanticErrorView>
    decreases params.len() - i,
{
    if i < 0 || i >= params.len() {
        Ok((before, frame))
    } else {
        let p = params[i];
        let ty = resolved(ctx, p.ty);
        match with_local(frame, p.name, ty, true, p.span) {
            Err(error) => Err(error),
            Ok((id, after)) => lowered_parameters(
                ctx,
                after,
                params,
                i + 1,
                before.push(TypedParameterView { id, name: p.name, ty, span: p.span }),
            ),
        }
    }
}

/// The frame that a function starts with.
pub open spec fn empty_frame() -> Frame {
    Frame { locals: Seq::empty(), start: 0, next: 0 }
}

/// Whether a program starts with the function.
pub open spec fn is_main(f: FunctionDeclView) -> bool {
    f.name == "main"@ && !f.is_extern
}

pub open spec fn lowered_function(ctx: Context, f: FunctionDeclView) -> Result<
    TypedFunctionView,
    SemanticErrorView,
> {
    let output = resolved(ctx, f.return_type);
    match lowered_parameters(ctx, empty_frame(), f.params, 0, Seq::empty()) {
        Err(error) => Err(error),
        Ok((params, frame)) => match lowered_statements(
            Place { ctx, is_main: is_main(f), output, in_loop: false },
            frame,
            f.body.statements,
            0,
            Seq::empty(),
        ) {
            Err(error) => Err(error),
            Ok((statements, _)) => if !f.is_extern && output != ResolvedType::Unit
                && falls_through(f.body) {
                Err(SemanticErrorView::MissingReturn { function: f.name, span: f.body.span })
            } else {
                match ctx.find(f.name, Sort::Function) {
                    None => Err(SemanticErrorView::UndefinedName { name: f.name, span: f.span }),
                    Some(i) => Ok(
                        TypedFunctionView {
                            id: ctx.ids[i],
                            name: f.name,
                            params,
                            return_type: output,
                            body: TypedBlockView { statements, span: f.body.span },
                            span: f.span,
                            is_extern: f.is_extern,
                            abi: f.abi,
                            link_name: f.link_name,
                            exported: f.exported,
                        },
                    ),
                }
            },
        },
    }
}

/// The functions among the declarations from `i` on.
pub open spec fn lowered_functions(
    ctx: Context,
    i: int,
    before: Seq<TypedFunctionView>,
) -> Result<Seq<TypedFunctionView>, SemanticErrorView>
    decreases ctx.decls.len() - i,
{
    if i < 0 || i >= ctx.decls.len() {
        Ok(before)
    } else {
        match ctx.decls[i] {
            DeclView::Function(f) => match lowered_function(ctx, f) {
                Err(error) => Err(error),
                Ok(typed) => lowered_functions(ctx, i + 1, before.push(typed)),
            },
            _ => lowered_functions(ctx, i + 1, before),
        }
    }
}

/// The globals and the constants among the declarations from `i` on.
pub open spec fn lowered_variables(
    m: FloatModel,
    ctx: Context,
    i: int,
    globals: Seq<TypedGlobalView>,
    constants: Seq<TypedConstantView>,
) -> Result<(Seq<TypedGlobalView>, Seq<TypedConstantView>), SemanticErrorView>
    decreases ctx.decls.len() - i,
{
    if i < 0 || i >= ctx.decls.len() {
        Ok((globals, constants))
    } else {
        match ctx.decls[i] {
            DeclView::Variable(v) => {
                let ty = variable_type(ctx, v);
                let id = id_of(ctx, v.name);
                match initial_value(m, ctx, v.value, ty) {
                    Err(error) => Err(error),
                    Ok(value) => if v.kind == VariableKind::Immutable {
                        lowered_variables(
                            m,
                            ctx,
                            i + 1,
                            globals,
                            constants.push(
                                TypedConstantView { id, name: v.name, ty, value, span: v.span },
                            ),
                        )
                    } else {
                        lowered_variables(
                            m,
                            ctx,
                            i + 1,
                            globals.push(
                                TypedGlobalView { id, name: v.name, ty, value, span: v.span },
                            ),
                            constants,
                        )
                    },
                }
            },
            _ => lowered_variables(m, ctx, i + 1, globals, constants),
        }
    }
}

pub open spec fn lowered_struct_fields(ctx: Context, fields: Seq<StructFieldView>) -> Seq<
    TypedFieldView,
> {
    Seq::new(
        fields.len(),
        |i: int| TypedFieldView { name: fields[i].name, ty: resolved(ctx, fields[i].ty) },
    )
}

/// The structs among the first `n` declarations.
pub open spec fn lowered_structs(ctx: Context, n: int) -> Seq<TypedStructView>
    decreases n,
{
    if n <= 0 || n > ctx.decls.len() {
        Seq::empty()
    } else {
        let before = lowered_structs(ctx, n - 1);
        match ctx.decls[n - 1] {
            DeclView::Struct(s) => before.push(
                TypedStructView {
                    id: id_of(ctx, s.name),
                    name: s.name,
                    fields: lowered_struct_fields(ctx, s.fields),
                    span: s.span,
                },
            ),
            _ => before,
        }
    }
}

pub open spec fn definition_kind(d: DeclView) -> DefinitionKind {
    match d {
        DeclView::Function(_) => DefinitionKind::Function,
        DeclView::Struct(_) => DefinitionKind::Struct,
        DeclView::Variable(v) => if v.kind == VariableKind::Immutable {
            DefinitionKind::Constant
        } else {
            DefinitionKind::Global
        },
        DeclView::Comptime { .. } => DefinitionKind::Constant,
    }
}

/// What the first `n` declarations define.
pub open spec fn defined(ctx: Context, n: int) -> Seq<DefinitionView>
    decreases n,
{
    if n <= 0 || n > ctx.decls.len() {
        Seq::empty()
    } else {
        let before = defined(ctx, n - 1);
        match declared_name(ctx.decls[n - 1]) {
            None => before,
            Some(name) => before.push(
                DefinitionView {
                    id: id_of(ctx, name),
                    name,
                    kind: definition_kind(ctx.decls[n - 1]),
                },
            ),
        }
    }
}

/// The typed program that declarations stand for.
pub open spec fn lowered_program(m: FloatModel, ctx: Context) -> Result<
    TypedProgramView,
    SemanticErrorView,
> {
    match checked_declarations(ctx, 0) {
        Err(error) => Err(error),
        Ok(()) => match lowered_variables(m, ctx, 0, Seq::empty(), Seq::empty()) {
            Err(error) => Err(error),
            Ok((globals, constants)) => match lowered_functions(ctx, 0, Seq::empty()) {
                Err(error) => Err(error),
                Ok(functions) => Ok(
                    TypedProgramView {
                        symbols: SymbolTableView {
                            definitions: defined(ctx, ctx.decls.len() as int),
                        },
                        types: TypeInternerView { types: Seq::empty() },
                        structs: lowered_structs(ctx, ctx.decls.len() as int),
                        globals,
                        constants,
                        functions,
                    },
                ),
            },
        },
    }
}

} // verus!
