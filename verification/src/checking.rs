//! What analysis accepts: every expression has the type that is asked of it, and
//! the typed program says what the program says.
use crate::ast::{
    BinaryOp, BlockView, DeclView, ExprView, FunctionDeclView, ParameterView, StmtView,
    StructFieldView, StructInitView, TypeView, UnaryOp, VariableKind,
};
use crate::floats::FloatModel;
use crate::lexer::Span;
use crate::semantic::BindingView;
use crate::typed::{
    DefId, Intrinsic, LayoutKind, LocalId, LowLevelOperation, ResolvedType, TypedBlockView,
    TypedExprView, TypedFunctionView, TypedParameterView, TypedPlaceView, TypedStmtView,
};
use crate::typing;
use crate::typing::{
    binding_of, declared_name, find_declaration, init_index, is_of_sort, is_place, lowered,
    lowered_arguments, lowered_elements, lowered_fields, lowered_function_call, lowered_low_level,
    lowered_make_slice, lowered_place, lowered_result_builtin, parameter_types, pointer_sized,
    resolved, sized, variable_type, written, Context, Env, Frame, Place, Sort,
};
use vstd::prelude::*;

verus! {

// ---------------------------------------------------------------------------
// Names
// ---------------------------------------------------------------------------

/// Whether binding `k` is the one that a name stands for: no later one has it.
pub open spec fn is_innermost(locals: Seq<BindingView>, name: Seq<char>, k: int) -> bool {
    &&& 0 <= k < locals.len()
    &&& locals[k].name == name
    &&& forall|j: int| k < j < locals.len() ==> (#[trigger] locals[j]).name != name
}

pub open spec fn is_local(locals: Seq<BindingView>, name: Seq<char>) -> bool {
    exists|k: int| 0 <= k < locals.len() && (#[trigger] locals[k]).name == name
}

/// Whether declaration `i` is the last one of a sort and a name.
pub open spec fn is_declared(ctx: Context, i: int, name: Seq<char>, sort: Sort) -> bool {
    &&& 0 <= i < ctx.decls.len()
    &&& is_of_sort(ctx.decls[i], sort)
    &&& declared_name(ctx.decls[i]) == Some(name)
    &&& forall|j: int|
        i < j < ctx.decls.len() && is_of_sort(#[trigger] ctx.decls[j], sort) ==> declared_name(
            ctx.decls[j],
        ) != Some(name)
}

proof fn lemma_binding(locals: Seq<BindingView>, n: int, name: Seq<char>)
    requires
        0 <= n <= locals.len(),
    ensures
        binding_of(locals, n, name) matches Some(b) ==> exists|k: int|
            0 <= k < n && (#[trigger] locals[k]) == b && b.name == name && forall|j: int|
                k < j < n ==> (#[trigger] locals[j]).name != name,
        binding_of(locals, n, name) is None ==> forall|k: int|
            0 <= k < n ==> (#[trigger] locals[k]).name != name,
    decreases n,
{
    if n > 0 && locals[n - 1].name != name {
        lemma_binding(locals, n - 1, name);
        if let Some(b) = binding_of(locals, n, name) {
            let k = choose|k: int|
                0 <= k < n - 1 && (#[trigger] locals[k]) == b && b.name == name && forall|j: int|
                    k < j < n - 1 ==> (#[trigger] locals[j]).name != name;
            assert(locals[k] == b);
        }
    } else if n > 0 {
        assert(locals[n - 1].name == name);
    }
}

proof fn lemma_found(ctx: Context, n: int, name: Seq<char>, sort: Sort)
    requires
        0 <= n <= ctx.decls.len(),
    ensures
        find_declaration(ctx.decls, n, name, sort) matches Some(i) ==> 0 <= i < n && is_of_sort(
            ctx.decls[i],
            sort,
        ) && declared_name(ctx.decls[i]) == Some(name) && forall|j: int|
            i < j < n && is_of_sort(#[trigger] ctx.decls[j], sort) ==> declared_name(ctx.decls[j])
                != Some(name),
    decreases n,
{
    if n > 0 && !(is_of_sort(ctx.decls[n - 1], sort) && declared_name(ctx.decls[n - 1]) == Some(
        name,
    )) {
        lemma_found(ctx, n - 1, name, sort);
    }
}

proof fn lemma_declared(ctx: Context, name: Seq<char>, sort: Sort)
    ensures
        ctx.find(name, sort) matches Some(i) ==> is_declared(ctx, i, name, sort),
{
    lemma_found(ctx, ctx.decls.len() as int, name, sort);
}

// ---------------------------------------------------------------------------
// Types
// ---------------------------------------------------------------------------

/// Whether analysis holds an expression to the type that is asked of it. A call,
/// a field and the like have the type that they have.
pub open spec fn is_held(v: TypedExprView) -> bool
    decreases v,
{
    match v {
        TypedExprView::Integer { .. } => true,
        TypedExprView::Float { .. } => true,
        TypedExprView::Bool { .. } => true,
        TypedExprView::Null { .. } => true,
        TypedExprView::Load { .. } => true,
        TypedExprView::GlobalLoad { .. } => true,
        TypedExprView::Binary { .. } => true,
        TypedExprView::Unary { operator, operand, .. } => operator != UnaryOp::Not && is_held(
            *operand,
        ),
        _ => false,
    }
}

pub open spec fn agrees(v: TypedExprView, ty: ResolvedType) -> bool {
    is_held(v) ==> v.ty() == ty
}

pub open spec fn all_agree(vs: Seq<TypedExprView>, types: Seq<ResolvedType>) -> bool {
    &&& vs.len() == types.len()
    &&& forall|i: int| 0 <= i < vs.len() ==> agrees(#[trigger] vs[i], types[i])
}

/// Whether a call is one of declaration `i`: as many arguments as the function
/// has parameters, each of the type of its parameter.
pub open spec fn calls(
    ctx: Context,
    i: int,
    function: DefId,
    arguments: Seq<TypedExprView>,
    types: Seq<ResolvedType>,
    ty: ResolvedType,
) -> bool {
    &&& 0 <= i < ctx.decls.len()
    &&& ctx.decls[i] matches DeclView::Function(f) && {
        &&& function == ctx.ids[i]
        &&& types.len() == f.params.len()
        &&& forall|k: int|
            0 <= k < types.len() ==> #[trigger] types[k] == resolved(ctx, f.params[k].ty)
        &&& all_agree(arguments, types)
        &&& ty == resolved(ctx, f.return_type)
    }
}

/// Whether a type is that of struct declaration `i`, with values for its fields.
pub open spec fn fills(
    ctx: Context,
    i: int,
    ty: ResolvedType,
    values: Seq<TypedExprView>,
) -> bool {
    &&& 0 <= i < ctx.decls.len()
    &&& ctx.decls[i] matches DeclView::Struct(s) && {
        &&& ty == ResolvedType::Struct(ctx.ids[i])
        &&& values.len() == s.fields.len()
        &&& forall|k: int|
            0 <= k < values.len() ==> agrees(
                #[trigger] values[k],
                resolved(ctx, s.fields[k].ty),
            )
    }
}

/// What an operator gives for operands of a type.
pub open spec fn operator_fits(
    operator: BinaryOp,
    a: TypedExprView,
    b: TypedExprView,
    ty: ResolvedType,
    operand_type: ResolvedType,
) -> bool {
    &&& operand_type == a.ty()
    &&& if operator == BinaryOp::LogicalAnd || operator == BinaryOp::LogicalOr {
        ty == ResolvedType::Bool && agrees(a, ResolvedType::Bool) && agrees(b, ResolvedType::Bool)
    } else if operator == BinaryOp::Equal || operator == BinaryOp::NotEqual || operator
        == BinaryOp::Less || operator == BinaryOp::LessEqual || operator == BinaryOp::Greater
        || operator == BinaryOp::GreaterEqual {
        ty == ResolvedType::Bool && agrees(b, a.ty())
    } else if a.ty() is Pointer && b.ty() is Integer && (operator == BinaryOp::Add || operator
        == BinaryOp::Subtract) {
        ty == a.ty()
    } else if a.ty() is Pointer && b.ty() is Pointer && operator == BinaryOp::Subtract {
        ty == pointer_sized(true) && b.ty() == a.ty()
    } else {
        ty == a.ty() && b.ty() == a.ty()
    }
}

/// Whether every part of an expression has the type that is asked of it.
pub open spec fn fits(env: Env, v: TypedExprView) -> bool
    decreases v,
{
    match v {
        TypedExprView::Integer { ty, .. } => ty is Integer,
        TypedExprView::Float { ty, .. } => ty is Float,
        TypedExprView::Bool { ty, .. } => ty == ResolvedType::Bool,
        TypedExprView::Null { .. } => true,
        TypedExprView::Load { id, name, ty, .. } => exists|k: int|
            is_innermost(env.locals, name, k) && (#[trigger] env.locals[k]).id == id
                && env.locals[k].ty == ty,
        TypedExprView::GlobalLoad { id, name, ty, .. } => exists|i: int|
            is_declared(env.ctx, i, name, Sort::Variable) && #[trigger] env.ctx.ids[i] == id && ty
                == resolved(env.ctx, env.ctx.types[i]),
        TypedExprView::StructLiteral { ty, fields, .. } => all_fit(env, fields) && exists|i: int|
            #[trigger] fills(env.ctx, i, ty, fields),
        TypedExprView::ArrayLiteral { ty, elements, .. } => all_fit(env, elements) && (ty matches
            ResolvedType::Array { length, element } && elements.len() == length && forall|i: int|
            0 <= i < elements.len() ==> agrees(#[trigger] elements[i], *element)),
        TypedExprView::Field { place, ty, .. } => place_fits(env, *place) && ty == (*place).ty(),
        TypedExprView::Index { place, ty, .. } => place_fits(env, *place) && ty == (*place).ty(),
        TypedExprView::AddressOf { place, ty, .. } => place_fits(env, *place) && ty
            == ResolvedType::Pointer(Box::new((*place).ty())),
        TypedExprView::Dereference { place, ty, .. } => place_fits(env, *place) && ty
            == (*place).ty(),
        TypedExprView::Unary { operator, operand, ty, .. } => fits(env, *operand) && ty
            == (*operand).ty() && (operator == UnaryOp::Not ==> agrees(
            *operand,
            ResolvedType::Bool,
        )),
        TypedExprView::Binary { left, operator, right, ty, operand_type, .. } => fits(env, *left)
            && fits(env, *right) && operator_fits(operator, *left, *right, ty, operand_type),
        TypedExprView::Call { function, arguments, parameter_types, ty, .. } => all_fit(
            env,
            arguments,
        ) && exists|i: int| #[trigger]
            calls(env.ctx, i, function, arguments, parameter_types, ty),
        TypedExprView::MakeSlice { pointer, length, element, ty, .. } => fits(env, *pointer)
            && fits(env, *length) && (*pointer).ty() == ResolvedType::Pointer(Box::new(element))
            && ty == ResolvedType::Slice(Box::new(element)) && agrees(
            *length,
            pointer_sized(false),
        ),
        TypedExprView::LowLevel { operation, arguments, ty, .. } => all_fit(env, arguments)
            && match operation {
            LowLevelOperation::Fence => arguments.len() == 0 && ty == ResolvedType::Unit,
            LowLevelOperation::VolatileLoad => arguments.len() == 1 && arguments[0].ty()
                == ResolvedType::Pointer(Box::new(ty)),
            LowLevelOperation::AtomicLoad => arguments.len() == 1 && arguments[0].ty()
                == ResolvedType::Pointer(Box::new(ty)),
            _ => arguments.len() == 2 && ty == ResolvedType::Unit && (arguments[0].ty() matches
                ResolvedType::Pointer(element) && agrees(arguments[1], *element)),
        },
        TypedExprView::Layout { ty, .. } => ty == pointer_sized(false),
        TypedExprView::ResultOk { value, ty, .. } => fits(env, *value) && ty == env.output && (
        ty matches ResolvedType::Result { success, .. } && (agrees(*value, *success)
            || is_no_value(*value))),
        TypedExprView::ResultErr { value, ty, .. } => fits(env, *value) && ty == env.output && (
        ty matches ResolvedType::Result { error, .. } && (agrees(*value, *error) || is_no_value(
            *value,
        ))),
        TypedExprView::IsErr { value, ty, .. } => fits(env, *value) && ty == ResolvedType::Bool,
        TypedExprView::Unwrap { value, ty, .. } => fits(env, *value) && ((*value).ty() matches
            ResolvedType::Result { success, .. } && ty == *success),
        TypedExprView::Propagate { value, ty, .. } => fits(env, *value) && ((*value).ty() matches
            ResolvedType::Result { success, error } && ty == *success && (env.output matches
            ResolvedType::Result { error: own, .. } && own == error || (env.is_main && env.output
            == sized(32, true)))),
    }
}

/// What stands for the value of a result that is made of nothing.
pub open spec fn is_no_value(v: TypedExprView) -> bool {
    v matches TypedExprView::Integer { value, ty, .. } && value == 0 && ty == sized(8, false)
}

pub open spec fn all_fit(env: Env, vs: Seq<TypedExprView>) -> bool
    decreases vs,
{
    forall|i: int| 0 <= i < vs.len() ==> fits(env, #[trigger] vs[i])
}

/// Whether a field index is that of a field of struct declaration `i`.
pub open spec fn has_field(ctx: Context, i: int, k: int, index: u32, ty: ResolvedType) -> bool {
    &&& 0 <= i < ctx.decls.len()
    &&& ctx.decls[i] matches DeclView::Struct(s) && 0 <= k < s.fields.len() && index == (k
        % 0x1_0000_0000) as u32 && ty == resolved(ctx, s.fields[k].ty)
}

pub open spec fn place_fits(env: Env, place: TypedPlaceView) -> bool
    decreases place,
{
    match place {
        TypedPlaceView::Local { id, ty } => exists|k: int|
            0 <= k < env.locals.len() && (#[trigger] env.locals[k]).id == id && env.locals[k].ty
                == ty,
        TypedPlaceView::Global { id, name, ty } => exists|i: int|
            is_declared(env.ctx, i, name, Sort::Variable) && #[trigger] env.ctx.ids[i] == id && ty
                == resolved(env.ctx, env.ctx.types[i]),
        TypedPlaceView::Temporary { value, ty } => fits(env, *value) && ty == (*value).ty(),
        TypedPlaceView::Field { base, index, ty } => place_fits(env, *base) && exists|
            i: int,
            k: int,
        | #[trigger] has_field(env.ctx, i, k, index, ty),
        TypedPlaceView::Index { base, index, length, ty, .. } => place_fits(env, *base) && fits(
            env,
            *index,
        ) && agrees(*index, pointer_sized(false)) && match (*base).ty() {
            ResolvedType::Array { length: n, element } => length == Some(n) && ty == resolved(
                env.ctx,
                written(env.ctx, *element),
            ),
            ResolvedType::Slice(element) => length is None && ty == resolved(
                env.ctx,
                written(env.ctx, *element),
            ),
            _ => false,
        },
        TypedPlaceView::Dereference { pointer, ty } => fits(env, *pointer) && ((
        *pointer).ty() matches ResolvedType::Pointer(element) && ty == resolved(
            env.ctx,
            written(env.ctx, *element),
        )),
    }
}

// ---------------------------------------------------------------------------
// What is said
// ---------------------------------------------------------------------------

/// Whether a typed expression says what an expression says. A constant stands
/// for its value, through at most `depth` constants.
pub open spec fn says(env: Env, v: TypedExprView, e: ExprView, depth: nat) -> bool
    decreases
            depth,
            e,
            (if is_place(e) {
                1int
            } else {
                0int
            }),
{
    match e {
        ExprView::Integer { value, .. } => v matches TypedExprView::Integer { value: x, .. } && x
            == value,
        ExprView::Float { value, .. } => v matches TypedExprView::Float { value: x, .. } && x
            == value,
        ExprView::Bool { value, .. } => v matches TypedExprView::Bool { value: x, .. } && x
            == value,
        ExprView::Null { .. } => v is Null,
        ExprView::SizeOf { ty, .. } => v matches TypedExprView::Layout { kind, target, .. } && kind
            == LayoutKind::Size && target == resolved(env.ctx, ty),
        ExprView::AlignOf { ty, .. } => v matches TypedExprView::Layout { kind, target, .. }
            && kind == LayoutKind::Align && target == resolved(env.ctx, ty),
        ExprView::OffsetOf { ty, field, .. } => v matches TypedExprView::Layout {
            kind,
            target,
            field: f,
            ..
        } && kind == LayoutKind::Offset && target == resolved(env.ctx, ty) && f == Some(field),
        ExprView::Identifier { name, .. } => if is_local(env.locals, name) {
            v matches TypedExprView::Load { id, name: n, .. } && n == name && exists|k: int|
                is_innermost(env.locals, name, k) && (#[trigger] env.locals[k]).id == id
        } else {
            exists|i: int| #[trigger]
                is_declared(env.ctx, i, name, Sort::Variable) && if is_of_sort(
                    env.ctx.decls[i],
                    Sort::Constant,
                ) {
                    depth > 0 && says(
                        env,
                        v,
                        env.ctx.decls[i]->Variable_0.value,
                        (depth - 1) as nat,
                    )
                } else {
                    v matches TypedExprView::GlobalLoad { id, name: n, .. } && n == name && id
                        == env.ctx.ids[i]
                }
        },
        ExprView::StructLiteral { name, fields, .. } => v matches TypedExprView::StructLiteral {
            fields: values,
            ty,
            ..
        } && exists|i: int| #[trigger]
            is_declared(env.ctx, i, name, Sort::Struct) && ty == ResolvedType::Struct(
                env.ctx.ids[i],
            ) && fields_say(env, values, env.ctx.decls[i]->Struct_0.fields, fields, depth),
        ExprView::ArrayLiteral { ty, elements, .. } => v matches TypedExprView::ArrayLiteral {
            ty: t,
            elements: values,
            ..
        } && t == resolved(env.ctx, ty) && all_say(env, values, elements, depth),
        ExprView::Field { .. } => v matches TypedExprView::Field { place, .. } && place_says(
            env,
            *place,
            e,
            depth,
        ),
        ExprView::Index { .. } => v matches TypedExprView::Index { place, .. } && place_says(
            env,
            *place,
            e,
            depth,
        ),
        ExprView::UncheckedIndex { .. } => v matches TypedExprView::Index { place, .. }
            && place_says(env, *place, e, depth),
        ExprView::Unary { operator, operand, .. } => if operator == UnaryOp::AddressOf {
            v matches TypedExprView::AddressOf { place, .. } && place_says(
                env,
                *place,
                *operand,
                depth,
            )
        } else if operator == UnaryOp::Dereference {
            v matches TypedExprView::Dereference { place, .. } && place_says(env, *place, e, depth)
        } else {
            v matches TypedExprView::Unary { operator: o, operand: x, .. } && o == operator && says(
                env,
                *x,
                *operand,
                depth,
            )
        },
        ExprView::Binary { left, operator, right, .. } => v matches TypedExprView::Binary {
            left: a,
            operator: o,
            right: b,
            ..
        } && o == operator && says(env, *a, *left, depth) && says(env, *b, *right, depth),
        ExprView::Propagate { expression, .. } => v matches TypedExprView::Propagate {
            value,
            ..
        } && says(env, *value, *expression, depth),
        ExprView::Call { callee, arguments, .. } => (*callee) matches ExprView::Identifier {
            name,
            ..
        } && call_says(env, v, name, arguments, depth),
        _ => false,
    }
}

pub open spec fn call_says(
    env: Env,
    v: TypedExprView,
    name: Seq<char>,
    arguments: Seq<ExprView>,
    depth: nat,
) -> bool
    decreases depth, arguments, 1int,
{
    match Intrinsic::named(name) {
        None => v matches TypedExprView::Call { function, name: n, arguments: values, .. } && n
            == name && all_say(env, values, arguments, depth) && exists|i: int| #[trigger]
            is_declared(env.ctx, i, name, Sort::Function) && function == env.ctx.ids[i],
        Some(Intrinsic::MakeSlice) => v matches TypedExprView::MakeSlice {
            pointer,
            length,
            ..
        } && all_say(env, seq![*pointer, *length], arguments, depth),
        Some(Intrinsic::IsErr) => v matches TypedExprView::IsErr { value, .. } && all_say(
            env,
            seq![*value],
            arguments,
            depth,
        ),
        Some(Intrinsic::Unwrap) => v matches TypedExprView::Unwrap { value, .. } && all_say(
            env,
            seq![*value],
            arguments,
            depth,
        ),
        Some(Intrinsic::ReturnOk) => v matches TypedExprView::ResultOk { value, .. } && (if 0
            < arguments.len() {
            says(env, *value, arguments[0], depth)
        } else {
            is_no_value(*value)
        }),
        Some(Intrinsic::ReturnErr) => v matches TypedExprView::ResultErr { value, .. } && (if 0
            < arguments.len() {
            says(env, *value, arguments[0], depth)
        } else {
            is_no_value(*value)
        }),
        Some(intrinsic) => v matches TypedExprView::LowLevel { operation, arguments: values, .. }
            && intrinsic.low_level() == Some(operation) && all_say(env, values, arguments, depth),
    }
}

pub open spec fn all_say(env: Env, vs: Seq<TypedExprView>, es: Seq<ExprView>, depth: nat) -> bool
    decreases depth, es, 0int,
{
    &&& vs.len() == es.len()
    &&& forall|i: int|
        #![trigger vs[i]]
        #![trigger es[i]]
        0 <= i < es.len() ==> says(env, vs[i], es[i], depth)
}

/// Whether the value of each field is that of the initializer of its name.
pub open spec fn fields_say(
    env: Env,
    vs: Seq<TypedExprView>,
    fields: Seq<StructFieldView>,
    inits: Seq<StructInitView>,
    depth: nat,
) -> bool
    decreases depth, inits, 1int,
{
    &&& vs.len() == fields.len()
    &&& forall|i: int|
        0 <= i < vs.len() ==> field_says(env, #[trigger] vs[i], fields[i].name, inits, depth)
}

pub open spec fn field_says(
    env: Env,
    v: TypedExprView,
    name: Seq<char>,
    inits: Seq<StructInitView>,
    depth: nat,
) -> bool
    decreases depth, inits, 0int,
{
    exists|k: int|
        0 <= k < inits.len() && (#[trigger] inits[k]).name == name && says(
            env,
            v,
            inits[k].value,
            depth,
        )
}

/// Whether the field of a name stands at an index, in struct declaration `i`.
pub open spec fn names_field(ctx: Context, i: int, k: int, name: Seq<char>, index: u32) -> bool {
    &&& 0 <= i < ctx.decls.len()
    &&& ctx.decls[i] matches DeclView::Struct(s) && 0 <= k < s.fields.len() && s.fields[k].name
        == name && index == (k % 0x1_0000_0000) as u32
}

pub open spec fn place_says(env: Env, place: TypedPlaceView, e: ExprView, depth: nat) -> bool
    decreases
            depth,
            e,
            (if is_place(e) {
                0int
            } else {
                1int
            }),
{
    match e {
        ExprView::Identifier { name, .. } => if is_local(env.locals, name) {
            place matches TypedPlaceView::Local { id, ty } && exists|k: int|
                is_innermost(env.locals, name, k) && (#[trigger] env.locals[k]).id == id
                    && env.locals[k].ty == ty
        } else {
            place matches TypedPlaceView::Global { id, name: n, .. } && n == name && exists|i: int|
                #[trigger] is_declared(env.ctx, i, name, Sort::Variable) && id == env.ctx.ids[i]
        },
        ExprView::Field { base, name, .. } => place matches TypedPlaceView::Field {
            base: b,
            index,
            ..
        } && place_says(env, *b, *base, depth) && exists|i: int, k: int| #[trigger]
            names_field(env.ctx, i, k, name, index),
        ExprView::Unary { operator, operand, .. } => if operator == UnaryOp::Dereference {
            place matches TypedPlaceView::Dereference { pointer, .. } && says(
                env,
                *pointer,
                *operand,
                depth,
            )
        } else {
            place matches TypedPlaceView::Temporary { value, .. } && says(env, *value, e, depth)
        },
        ExprView::Index { base, index, .. } => place matches TypedPlaceView::Index {
            base: b,
            index: x,
            checked,
            ..
        } && checked && place_says(env, *b, *base, depth) && says(env, *x, *index, depth),
        ExprView::UncheckedIndex { base, index, .. } => place matches TypedPlaceView::Index {
            base: b,
            index: x,
            checked,
            ..
        } && !checked && place_says(env, *b, *base, depth) && says(env, *x, *index, depth),
        _ => place matches TypedPlaceView::Temporary { value, .. } && says(env, *value, e, depth),
    }
}

// ---------------------------------------------------------------------------
// Expressions
// ---------------------------------------------------------------------------

/// Whether the types of constants are inferred alike where they are used and
/// where they are declared.
pub open spec fn infers_alike(ctx: Context) -> bool {
    forall|i: int|
        0 <= i < ctx.decls.len() && is_of_sort(#[trigger] ctx.decls[i], Sort::Constant)
            ==> variable_type(ctx, ctx.decls[i]->Variable_0) == resolved(ctx, ctx.types[i])
}

/// Whether a typed expression is right for an expression.
pub open spec fn is_right(
    env: Env,
    v: TypedExprView,
    e: ExprView,
    expected: Option<ResolvedType>,
    depth: nat,
) -> bool {
    fits(env, v) && says(env, v, e, depth) && (expected matches Some(ty) ==> agrees(v, ty))
}

/// What analysis accepts of an expression says what the expression says, and
/// every part of it that analysis holds to a type has the type that is asked of
/// it: the arguments of a call those of the parameters of the function, of which
/// there are as many, operands that of their operator, and so on.
pub proof fn lemma_accepted_expressions_are_right(
    env: Env,
    e: ExprView,
    expected: Option<ResolvedType>,
    depth: nat,
)
    requires
        infers_alike(env.ctx),
    ensures
        lowered(env, e, expected, depth) matches Ok(v) ==> is_right(env, v, e, expected, depth),
    decreases
            depth,
            e,
            (if is_place(e) {
                2int
            } else {
                1int
            }),
{
    match e {
        ExprView::Propagate { expression, .. } => {
            lemma_accepted_expressions_are_right(env, *expression, None, depth);
        },
        ExprView::Identifier { name, .. } => {
            lemma_names_are_right(env, e, expected, depth);
        },
        ExprView::StructLiteral { name, fields, .. } => {
            lemma_declared(env.ctx, name, Sort::Struct);
            if let Some(i) = env.ctx.find(name, Sort::Struct) {
                let structure = env.ctx.decls[i]->Struct_0;
                lemma_fields_are_right(
                    env,
                    name,
                    structure.fields,
                    fields,
                    0,
                    Seq::empty(),
                    e.span(),
                    depth,
                );
                if let Ok(v) = lowered(env, e, expected, depth) {
                    let values = v->StructLiteral_fields;
                    assert(fills(env.ctx, i, v.ty(), values));
                    assert(is_declared(env.ctx, i, name, Sort::Struct));
                }
            }
        },
        ExprView::ArrayLiteral { ty, elements, .. } => {
            if let TypeView::Array { element, .. } = ty {
                lemma_elements_are_right(
                    env,
                    elements,
                    resolved(env.ctx, *element),
                    0,
                    Seq::empty(),
                    depth,
                );
            }
        },
        ExprView::Field { .. } => {
            lemma_accepted_places_are_right(env, e, depth);
        },
        ExprView::Index { .. } => {
            lemma_accepted_places_are_right(env, e, depth);
        },
        ExprView::UncheckedIndex { .. } => {
            lemma_accepted_places_are_right(env, e, depth);
        },
        ExprView::Unary { operator, operand, .. } => {
            if operator == UnaryOp::AddressOf {
                lemma_accepted_places_are_right(env, *operand, depth);
            } else if operator == UnaryOp::Dereference {
                lemma_accepted_places_are_right(env, e, depth);
            } else {
                let wanted = if operator == UnaryOp::Not {
                    Some(ResolvedType::Bool)
                } else {
                    expected
                };
                lemma_accepted_expressions_are_right(env, *operand, wanted, depth);
            }
        },
        ExprView::Binary { left, operator, right, .. } => {
            let wanted = typing::left_expectation(operator, *left, expected);
            lemma_accepted_expressions_are_right(env, *left, wanted, depth);
            if let Ok(a) = lowered(env, *left, wanted, depth) {
                let other = typing::right_expectation(operator, a.ty(), *right);
                lemma_accepted_expressions_are_right(env, *right, other, depth);
            }
        },
        ExprView::Call { callee, arguments, .. } => {
            if let ExprView::Identifier { name, .. } = *callee {
                lemma_calls_are_right(env, name, arguments, e.span(), depth);
                if let Ok(v) = lowered(env, e, expected, depth) {
                    assert(call_is_right(env, v, name, arguments, depth));
                }
            }
        },
        _ => {},
    }
}

proof fn lemma_names_are_right(
    env: Env,
    e: ExprView,
    expected: Option<ResolvedType>,
    depth: nat,
)
    requires
        e is Identifier,
        infers_alike(env.ctx),
    ensures
        lowered(env, e, expected, depth) matches Ok(v) ==> is_right(env, v, e, expected, depth),
    decreases depth, e, 0int,
{
    let name = e->Identifier_name;
    let n = env.locals.len() as int;
    lemma_binding(env.locals, n, name);
    lemma_declared(env.ctx, name, Sort::Variable);
    lemma_declared(env.ctx, name, Sort::Constant);
    match binding_of(env.locals, n, name) {
        Some(b) => {
            let k = choose|k: int|
                0 <= k < n && (#[trigger] env.locals[k]) == b && b.name == name && forall|j: int|
                    k < j < n ==> (#[trigger] env.locals[j]).name != name;
            assert(is_innermost(env.locals, name, k));
            assert(env.locals[k].id == b.id);
            assert(is_local(env.locals, name));
        },
        None => {
            assert(!is_local(env.locals, name));
            if let Some(i) = env.ctx.find(name, Sort::Variable) {
                assert(is_declared(env.ctx, i, name, Sort::Variable));
                if is_of_sort(env.ctx.decls[i], Sort::Constant) {
                    if let Some(j) = env.ctx.find(name, Sort::Constant) {
                        assert(is_of_sort(env.ctx.decls[j], Sort::Variable));
                        assert(j == i);
                        if depth > 0 {
                            let v = env.ctx.decls[i]->Variable_0;
                            let wanted = Some(variable_type(env.ctx, v));
                            lemma_accepted_expressions_are_right(
                                env,
                                v.value,
                                wanted,
                                (depth - 1) as nat,
                            );
                        }
                    }
                } else {
                    assert(env.ctx.ids[i] == env.ctx.ids[i]);
                }
            } else {
                if let Some(j) = env.ctx.find(name, Sort::Constant) {
                    lemma_not_found(env.ctx, env.ctx.decls.len() as int, name, Sort::Variable);
                    assert(is_of_sort(env.ctx.decls[j], Sort::Variable));
                }
            }
        },
    }
}

proof fn lemma_not_found(ctx: Context, n: int, name: Seq<char>, sort: Sort)
    requires
        0 <= n <= ctx.decls.len(),
    ensures
        find_declaration(ctx.decls, n, name, sort) is None ==> forall|j: int|
            0 <= j < n && is_of_sort(#[trigger] ctx.decls[j], sort) ==> declared_name(ctx.decls[j])
                != Some(name),
    decreases n,
{
    if n > 0 {
        lemma_not_found(ctx, n - 1, name, sort);
    }
}

pub open spec fn call_is_right(
    env: Env,
    v: TypedExprView,
    name: Seq<char>,
    arguments: Seq<ExprView>,
    depth: nat,
) -> bool {
    fits(env, v) && call_says(env, v, name, arguments, depth) && !is_held(v)
}

proof fn lemma_calls_are_right(
    env: Env,
    name: Seq<char>,
    arguments: Seq<ExprView>,
    span: Span,
    depth: nat,
)
    requires
        infers_alike(env.ctx),
    ensures
        Intrinsic::named(name) is None ==> (lowered_function_call(
            env,
            name,
            arguments,
            span,
            depth,
        ) matches Ok(v) ==> call_is_right(env, v, name, arguments, depth)),
        Intrinsic::named(name) == Some(Intrinsic::MakeSlice) ==> (lowered_make_slice(
            env,
            name,
            arguments,
            span,
            depth,
        ) matches Ok(v) ==> call_is_right(env, v, name, arguments, depth)),
        Intrinsic::named(name) matches Some(intrinsic) && (intrinsic.low_level() matches Some(
            operation,
        ) ==> (lowered_low_level(env, name, operation, arguments, span, depth) matches Ok(v)
            ==> call_is_right(env, v, name, arguments, depth))) || !(Intrinsic::named(name) matches
            Some(intrinsic) && intrinsic.low_level() is Some),
        Intrinsic::named(name) matches Some(intrinsic) && (intrinsic.low_level() is None
            && intrinsic != Intrinsic::MakeSlice ==> (lowered_result_builtin(
            env,
            name,
            intrinsic,
            arguments,
            span,
            depth,
        ) matches Ok(v) ==> call_is_right(env, v, name, arguments, depth))) || Intrinsic::named(
            name,
        ) is None,
    decreases depth, arguments, arguments.len() + 2,
{
    match Intrinsic::named(name) {
        None => {
            lemma_function_calls_are_right(env, name, arguments, span, depth);
        },
        Some(Intrinsic::MakeSlice) => {
            if arguments.len() == 2 {
                let wanted = if arguments[0] is Null {
                    Some(ResolvedType::Pointer(Box::new(sized(8, false))))
                } else {
                    None
                };
                lemma_accepted_expressions_are_right(env, arguments[0], wanted, depth);
                lemma_accepted_expressions_are_right(
                    env,
                    arguments[1],
                    Some(pointer_sized(false)),
                    depth,
                );
                if let Ok(v) = lowered_make_slice(env, name, arguments, span, depth) {
                    let pointer = *v->MakeSlice_pointer;
                    let length = *v->MakeSlice_length;
                    assert(all_say(env, seq![pointer, length], arguments, depth));
                    assert(fits(env, v));
                }
            }
        },
        Some(intrinsic) => {
            if intrinsic.low_level() is Some {
                lemma_low_level_is_right(env, name, intrinsic, arguments, span, depth);
            } else {
                lemma_results_are_right(env, name, intrinsic, arguments, span, depth);
            }
        },
    }
}

proof fn lemma_function_calls_are_right(
    env: Env,
    name: Seq<char>,
    arguments: Seq<ExprView>,
    span: Span,
    depth: nat,
)
    requires
        infers_alike(env.ctx),
        Intrinsic::named(name) is None,
    ensures
        lowered_function_call(env, name, arguments, span, depth) matches Ok(v) ==> call_is_right(
            env,
            v,
            name,
            arguments,
            depth,
        ),
    decreases depth, arguments, arguments.len() + 1,
{
    lemma_declared(env.ctx, name, Sort::Function);
    if let Some(i) = env.ctx.find(name, Sort::Function) {
        let f = env.ctx.decls[i]->Function_0;
        let types = parameter_types(env.ctx, f.params);
        if arguments.len() == types.len() {
            lemma_arguments_are_right(env, arguments, types, 0, Seq::empty(), depth);
            if let Ok(v) = lowered_function_call(env, name, arguments, span, depth) {
                let values = v->Call_arguments;
                assert(calls(env.ctx, i, env.ctx.ids[i], values, types, v.ty()));
                assert(is_declared(env.ctx, i, name, Sort::Function));
                assert(v is Call);
                assert(all_fit(env, v->Call_arguments));
                assert(calls(
                    env.ctx,
                    i,
                    v->Call_function,
                    v->Call_arguments,
                    v->Call_parameter_types,
                    v->Call_ty,
                ));
                assert(fits(env, v));
                assert(call_says(env, v, name, arguments, depth));
                assert(!is_held(v));
            }
        }
    }
}

proof fn lemma_low_level_is_right(
    env: Env,
    name: Seq<char>,
    intrinsic: Intrinsic,
    arguments: Seq<ExprView>,
    span: Span,
    depth: nat,
)
    requires
        infers_alike(env.ctx),
        Intrinsic::named(name) == Some(intrinsic),
        intrinsic.low_level() is Some,
    ensures
        lowered_low_level(
            env,
            name,
            intrinsic.low_level()->Some_0,
            arguments,
            span,
            depth,
        ) matches Ok(v) ==> call_is_right(env, v, name, arguments, depth),
    decreases depth, arguments, arguments.len() + 1,
{
    let operation = intrinsic.low_level()->Some_0;
    if arguments.len() == typing::operand_count(operation) && arguments.len() > 0 {
        lemma_accepted_expressions_are_right(env, arguments[0], None, depth);
        if let Ok(pointer) = lowered(env, arguments[0], None, depth) {
            if let ResolvedType::Pointer(element) = pointer.ty() {
                if arguments.len() > 1 {
                    lemma_accepted_expressions_are_right(
                        env,
                        arguments[1],
                        Some(*element),
                        depth,
                    );
                    if let Ok(value) = lowered(env, arguments[1], Some(*element), depth) {
                        assert(all_fit(env, seq![pointer, value]));
                        assert(all_say(env, seq![pointer, value], arguments, depth));
                    }
                } else {
                    assert(all_fit(env, seq![pointer]));
                    assert(all_say(env, seq![pointer], arguments, depth));
                }
            }
        }
    } else {
        assert(all_fit(env, Seq::empty()));
        if arguments.len() == 0 {
            assert(all_say(env, Seq::empty(), arguments, depth));
        }
    }
    if let Ok(v) = lowered_low_level(env, name, operation, arguments, span, depth) {
        assert(v is LowLevel);
        assert(fits(env, v));
        assert(call_says(env, v, name, arguments, depth));
    }
}

proof fn lemma_results_are_right(
    env: Env,
    name: Seq<char>,
    intrinsic: Intrinsic,
    arguments: Seq<ExprView>,
    span: Span,
    depth: nat,
)
    requires
        infers_alike(env.ctx),
        Intrinsic::named(name) == Some(intrinsic),
        intrinsic.low_level() is None,
        intrinsic != Intrinsic::MakeSlice,
    ensures
        lowered_result_builtin(env, name, intrinsic, arguments, span, depth) matches Ok(v)
            ==> call_is_right(env, v, name, arguments, depth),
    decreases depth, arguments, arguments.len() + 1,
{
    if arguments.len() > 0 {
        lemma_accepted_expressions_are_right(env, arguments[0], None, depth);
        if let ResolvedType::Result { success, error } = env.output {
            let wanted = if intrinsic == Intrinsic::ReturnOk {
                *success
            } else {
                *error
            };
            lemma_accepted_expressions_are_right(env, arguments[0], Some(wanted), depth);
        }
        if arguments.len() == 1 {
            if let Ok(value) = lowered(env, arguments[0], None, depth) {
                assert(all_say(env, seq![value], arguments, depth));
            }
        }
    }
    if let Ok(v) = lowered_result_builtin(env, name, intrinsic, arguments, span, depth) {
        match v {
            TypedExprView::IsErr { value, .. } => {
                assert(fits(env, *value));
            },
            TypedExprView::Unwrap { value, .. } => {
                assert(fits(env, *value));
            },
            TypedExprView::ResultOk { value, .. } => {
                assert(fits(env, *value));
            },
            TypedExprView::ResultErr { value, .. } => {
                assert(fits(env, *value));
            },
            _ => {
                assert(false);
            },
        }
        assert(fits(env, v));
        assert(call_says(env, v, name, arguments, depth));
    }
}

proof fn lemma_arguments_are_right(
    env: Env,
    es: Seq<ExprView>,
    types: Seq<ResolvedType>,
    i: int,
    before: Seq<TypedExprView>,
    depth: nat,
)
    requires
        infers_alike(env.ctx),
        types.len() == es.len(),
        0 <= i <= es.len(),
        before.len() == i,
        forall|k: int|
            0 <= k < i ==> is_right(env, #[trigger] before[k], es[k], Some(types[k]), depth),
    ensures
        lowered_arguments(env, es, types, i, before, depth) matches Ok(vs) ==> all_fit(env, vs)
            && all_say(env, vs, es, depth) && all_agree(vs, types),
    decreases depth, es, es.len() - i,
{
    if i < es.len() {
        lemma_accepted_expressions_are_right(env, es[i], Some(types[i]), depth);
        if let Ok(value) = lowered(env, es[i], Some(types[i]), depth) {
            lemma_arguments_are_right(env, es, types, i + 1, before.push(value), depth);
        }
    } else {
        assert forall|k: int| 0 <= k < before.len() implies fits(env, #[trigger] before[k]) by {
            assert(is_right(env, before[k], es[k], Some(types[k]), depth));
        }
        assert forall|k: int| 0 <= k < before.len() implies agrees(
            #[trigger] before[k],
            types[k],
        ) by {
            assert(is_right(env, before[k], es[k], Some(types[k]), depth));
        }
        assert forall|k: int|
            #![trigger before[k]]
            #![trigger es[k]]
            0 <= k < es.len() implies says(env, before[k], es[k], depth) by {
            assert(is_right(env, before[k], es[k], Some(types[k]), depth));
        }
    }
}

proof fn lemma_elements_are_right(
    env: Env,
    es: Seq<ExprView>,
    ty: ResolvedType,
    i: int,
    before: Seq<TypedExprView>,
    depth: nat,
)
    requires
        infers_alike(env.ctx),
        0 <= i <= es.len(),
        before.len() == i,
        forall|k: int| 0 <= k < i ==> is_right(env, #[trigger] before[k], es[k], Some(ty), depth),
    ensures
        lowered_elements(env, es, ty, i, before, depth) matches Ok(vs) ==> all_fit(env, vs)
            && all_say(env, vs, es, depth) && forall|k: int|
            0 <= k < vs.len() ==> agrees(#[trigger] vs[k], ty),
    decreases depth, es, es.len() - i,
{
    if i < es.len() {
        lemma_accepted_expressions_are_right(env, es[i], Some(ty), depth);
        if let Ok(value) = lowered(env, es[i], Some(ty), depth) {
            lemma_elements_are_right(env, es, ty, i + 1, before.push(value), depth);
        }
    } else {
        assert forall|k: int| 0 <= k < before.len() implies fits(env, #[trigger] before[k])
            && agrees(before[k], ty) by {
            assert(is_right(env, before[k], es[k], Some(ty), depth));
        }
        assert forall|k: int|
            #![trigger before[k]]
            #![trigger es[k]]
            0 <= k < es.len() implies says(env, before[k], es[k], depth) by {
            assert(is_right(env, before[k], es[k], Some(ty), depth));
        }
    }
}

/// Whether a value is that of the initializer of a field.
pub open spec fn initializes(
    env: Env,
    v: TypedExprView,
    field: StructFieldView,
    inits: Seq<StructInitView>,
    depth: nat,
) -> bool {
    fits(env, v) && agrees(v, resolved(env.ctx, field.ty)) && field_says(
        env,
        v,
        field.name,
        inits,
        depth,
    )
}

proof fn lemma_init_index(inits: Seq<StructInitView>, i: int, name: Seq<char>)
    requires
        0 <= i,
    ensures
        init_index(inits, i, name) matches Some(k) ==> i <= k < inits.len() && inits[k].name
            == name,
    decreases inits.len() - i,
{
    if i < inits.len() && inits[i].name != name {
        lemma_init_index(inits, i + 1, name);
    }
}

proof fn lemma_fields_are_right(
    env: Env,
    name: Seq<char>,
    fields: Seq<StructFieldView>,
    inits: Seq<StructInitView>,
    i: int,
    before: Seq<TypedExprView>,
    span: Span,
    depth: nat,
)
    requires
        infers_alike(env.ctx),
        0 <= i <= fields.len(),
        before.len() == i,
        forall|k: int|
            0 <= k < i ==> initializes(env, #[trigger] before[k], fields[k], inits, depth),
    ensures
        lowered_fields(env, name, fields, inits, i, before, span, depth) matches Ok(vs) ==> all_fit(
            env,
            vs,
        ) && fields_say(env, vs, fields, inits, depth) && vs.len() == fields.len() && forall|k: int|
            0 <= k < vs.len() ==> agrees(#[trigger] vs[k], resolved(env.ctx, fields[k].ty)),
    decreases depth, inits, fields.len() - i,
{
    if i < fields.len() {
        lemma_init_index(inits, 0, fields[i].name);
        if let Some(k) = init_index(inits, 0, fields[i].name) {
            let wanted = Some(resolved(env.ctx, fields[i].ty));
            lemma_accepted_expressions_are_right(env, inits[k].value, wanted, depth);
            if let Ok(value) = lowered(env, inits[k].value, wanted, depth) {
                assert(inits[k].name == fields[i].name);
                assert(field_says(env, value, fields[i].name, inits, depth));
                assert(initializes(env, value, fields[i], inits, depth));
                lemma_fields_are_right(
                    env,
                    name,
                    fields,
                    inits,
                    i + 1,
                    before.push(value),
                    span,
                    depth,
                );
            }
        }
    } else {
        assert forall|k: int| 0 <= k < before.len() implies fits(env, #[trigger] before[k])
            && agrees(before[k], resolved(env.ctx, fields[k].ty)) by {
            assert(initializes(env, before[k], fields[k], inits, depth));
        }
        assert forall|k: int| 0 <= k < before.len() implies field_says(
            env,
            #[trigger] before[k],
            fields[k].name,
            inits,
            depth,
        ) by {
            assert(initializes(env, before[k], fields[k], inits, depth));
        }
        assert(all_fit(env, before));
        assert(fields_say(env, before, fields, inits, depth));
    }
}

proof fn lemma_field_index(fields: Seq<StructFieldView>, i: int, name: Seq<char>)
    requires
        0 <= i,
    ensures
        typing::field_index(fields, i, name) matches Some(k) ==> i <= k < fields.len()
            && fields[k].name == name,
    decreases fields.len() - i,
{
    if i < fields.len() && fields[i].name != name {
        lemma_field_index(fields, i + 1, name);
    }
}

/// What analysis accepts of a place says what the expression says.
pub proof fn lemma_accepted_places_are_right(env: Env, e: ExprView, depth: nat)
    requires
        infers_alike(env.ctx),
    ensures
        lowered_place(env, e, depth) matches Ok(place) ==> place_fits(env, place) && place_says(
            env,
            place,
            e,
            depth,
        ),
    decreases
            depth,
            e,
            (if is_place(e) {
                0int
            } else {
                2int
            }),
{
    match e {
        ExprView::Identifier { .. } => {
            lemma_named_places_are_right(env, e, depth);
        },
        ExprView::Field { base, name, span } => {
            lemma_accepted_places_are_right(env, *base, depth);
            if let Ok(place) = lowered_place(env, *base, depth) {
                lemma_field_places_are_right(env, place, name, span);
                if let Ok(found) = lowered_place(env, e, depth) {
                    assert(place_fits(env, found));
                    assert(place_says(env, found, e, depth));
                }
            }
        },
        ExprView::Unary { operator, operand, .. } => {
            if operator == UnaryOp::Dereference {
                lemma_accepted_expressions_are_right(env, *operand, None, depth);
            } else {
                lemma_accepted_expressions_are_right(env, e, None, depth);
            }
        },
        ExprView::Index { base, index, .. } => {
            lemma_accepted_places_are_right(env, *base, depth);
            lemma_accepted_expressions_are_right(env, *index, Some(pointer_sized(false)), depth);
        },
        ExprView::UncheckedIndex { base, index, .. } => {
            lemma_accepted_places_are_right(env, *base, depth);
            lemma_accepted_expressions_are_right(env, *index, Some(pointer_sized(false)), depth);
        },
        _ => {
            lemma_accepted_expressions_are_right(env, e, None, depth);
        },
    }
}

proof fn lemma_named_places_are_right(env: Env, e: ExprView, depth: nat)
    requires
        e is Identifier,
    ensures
        lowered_place(env, e, depth) matches Ok(place) ==> place_fits(env, place) && place_says(
            env,
            place,
            e,
            depth,
        ),
{
    let name = e->Identifier_name;
    let n = env.locals.len() as int;
    lemma_binding(env.locals, n, name);
    lemma_declared(env.ctx, name, Sort::Variable);
    match binding_of(env.locals, n, name) {
        Some(b) => {
            let k = choose|k: int|
                0 <= k < n && (#[trigger] env.locals[k]) == b && b.name == name && forall|j: int|
                    k < j < n ==> (#[trigger] env.locals[j]).name != name;
            assert(is_innermost(env.locals, name, k));
            assert(env.locals[k].id == b.id);
            assert(is_local(env.locals, name));
        },
        None => {
            assert(!is_local(env.locals, name));
            if let Some(i) = env.ctx.find(name, Sort::Variable) {
                assert(is_declared(env.ctx, i, name, Sort::Variable));
                assert(env.ctx.ids[i] == env.ctx.ids[i]);
            }
        },
    }
}

proof fn lemma_field_places_are_right(
    env: Env,
    base: TypedPlaceView,
    name: Seq<char>,
    span: Span,
)
    ensures
        typing::field_place(env.ctx, base, name, span) matches Ok(place) ==> (place matches
            TypedPlaceView::Field { base: b, index, ty } && *b == base && (exists|i: int, k: int|
            #[trigger] has_field(env.ctx, i, k, index, ty)) && (exists|i: int, k: int| #[trigger]
            names_field(env.ctx, i, k, name, index))),
{
    if let TypeView::Named(s) = written(env.ctx, base.ty()) {
        lemma_declared(env.ctx, s, Sort::Struct);
        if let Some(i) = env.ctx.find(s, Sort::Struct) {
            let fields = env.ctx.decls[i]->Struct_0.fields;
            lemma_field_index(fields, 0, name);
            if let Some(k) = typing::field_index(fields, 0, name) {
                let index = (k % 0x1_0000_0000) as u32;
                assert(has_field(env.ctx, i, k, index, resolved(env.ctx, fields[k].ty)));
                assert(names_field(env.ctx, i, k, name, index));
                let place = typing::field_place(env.ctx, base, name, span)->Ok_0;
                assert(place is Field);
                assert(place->Field_index == index);
                assert(place->Field_ty == resolved(env.ctx, fields[k].ty));
                assert(*place->Field_base == base);
            }
        }
    }
}

// ---------------------------------------------------------------------------
// Statements
// ---------------------------------------------------------------------------

/// Where the expressions of a statement stand.
pub open spec fn env_at(place: Place, locals: Seq<BindingView>) -> Env {
    Env { ctx: place.ctx, is_main: place.is_main, output: place.output, locals }
}

/// Whether a typed expression is right for an expression of a statement.
pub open spec fn right_at(
    place: Place,
    locals: Seq<BindingView>,
    v: TypedExprView,
    e: ExprView,
    expected: Option<ResolvedType>,
) -> bool {
    is_right(env_at(place, locals), v, e, expected, place.ctx.decls.len())
}

/// The locals in scope after a statement.
pub open spec fn locals_after(locals: Seq<BindingView>, t: TypedStmtView) -> Seq<BindingView> {
    match t {
        TypedStmtView::Declare { id, name, ty, mutable, .. } => locals.push(
            BindingView { name, id, ty, mutable },
        ),
        _ => locals,
    }
}

/// Whether a typed statement says what a statement says, with every expression
/// of the type that is asked of it: conditions are truth values, what is returned
/// has the type that the function gives, and what is stored that of its place.
pub open spec fn statement_says(
    place: Place,
    locals: Seq<BindingView>,
    t: TypedStmtView,
    s: StmtView,
) -> bool
    decreases s,
{
    match s {
        StmtView::If { condition, then_branch, else_branch, .. } => t matches TypedStmtView::If {
            condition: test,
            then_branch: yes,
            else_branch: no,
            ..
        } && right_at(place, locals, test, condition, Some(ResolvedType::Bool)) && block_says(
            place,
            locals,
            yes,
            then_branch,
        ) && match else_branch {
            Some(branch) => no matches Some(other) && block_says(place, locals, other, branch),
            None => no is None,
        },
        StmtView::While { condition, body, .. } => t matches TypedStmtView::While {
            condition: test,
            body: inner,
            ..
        } && right_at(place, locals, test, condition, Some(ResolvedType::Bool)) && block_says(
            Place { in_loop: true, ..place },
            locals,
            inner,
            body,
        ),
        StmtView::Break { .. } => t is Break && place.in_loop,
        StmtView::Continue { .. } => t is Continue && place.in_loop,
        StmtView::Defer { call, .. } => t matches TypedStmtView::Defer {
            function,
            name,
            arguments,
            ..
        } && exists|types: Seq<ResolvedType>, ty: ResolvedType, span: Span|
            #[trigger] right_at(
                place,
                locals,
                TypedExprView::Call {
                    function,
                    name,
                    arguments,
                    parameter_types: types,
                    ty,
                    span,
                },
                call,
                None,
            ),
        StmtView::Return { value, .. } => t matches TypedStmtView::Return { value: v, .. }
            && match value {
            Some(e) => v matches Some(x) && right_at(place, locals, x, e, Some(place.output)),
            None => v is None,
        },
        StmtView::Variable(v) => t matches TypedStmtView::Declare { name, ty, mutable, value, .. }
            && {
            &&& name == v.name
            &&& mutable == (v.kind != VariableKind::Immutable)
            &&& match v.ty {
                Some(written) => ty == resolved(place.ctx, written) && right_at(
                    place,
                    locals,
                    value,
                    v.value,
                    Some(ty),
                ),
                None => ty == value.ty() && right_at(place, locals, value, v.value, None),
            }
        },
        StmtView::Assignment { target, value, .. } => t matches TypedStmtView::Store {
            target: stored,
            value: x,
            ty,
            ..
        } && {
            &&& place_fits(env_at(place, locals), stored)
            &&& place_says(env_at(place, locals), stored, target, place.ctx.decls.len())
            &&& ty == stored.ty()
            &&& right_at(place, locals, x, value, Some(ty))
            &&& can_be_assigned(env_at(place, locals), stored)
        },
        StmtView::Expr { expression, .. } => t matches TypedStmtView::Expr { expression: x, .. }
            && right_at(place, locals, x, expression, None),
    }
}

pub open spec fn block_says(
    place: Place,
    locals: Seq<BindingView>,
    t: TypedBlockView,
    b: BlockView,
) -> bool
    decreases b,
{
    statements_say(place, locals, t.statements, b.statements, 0)
}

/// Whether typed statements say what statements say, from `i` on.
pub open spec fn statements_say(
    place: Place,
    locals: Seq<BindingView>,
    ts: Seq<TypedStmtView>,
    ss: Seq<StmtView>,
    i: int,
) -> bool
    decreases ss, ss.len() - i,
{
    ts.len() == ss.len() && (0 <= i < ss.len() ==> statement_says(place, locals, ts[i], ss[i])
        && statements_say(place, locals_after(locals, ts[i]), ts, ss, i + 1))
}

/// Whether a place is in a variable that can be assigned to, or behind a
/// pointer.
pub open spec fn can_be_assigned(env: Env, place: TypedPlaceView) -> bool
    decreases place,
{
    match place {
        TypedPlaceView::Local { id, .. } => forall|k: int|
            0 <= k < env.locals.len() && (#[trigger] env.locals[k]).id == id && (forall|j: int|
                k < j < env.locals.len() ==> (#[trigger] env.locals[j]).id != id)
                ==> env.locals[k].mutable,
        TypedPlaceView::Global { name, .. } => exists|i: int| #[trigger]
            is_declared(env.ctx, i, name, Sort::Variable) && !is_of_sort(
                env.ctx.decls[i],
                Sort::Constant,
            ),
        TypedPlaceView::Temporary { .. } => false,
        TypedPlaceView::Field { base, .. } => can_be_assigned(env, *base),
        TypedPlaceView::Index { base, .. } => can_be_assigned(env, *base),
        TypedPlaceView::Dereference { .. } => true,
    }
}

proof fn lemma_mutable_local(locals: Seq<BindingView>, n: int, id: LocalId)
    requires
        0 <= n <= locals.len(),
    ensures
        typing::local_is_mutable(locals, n, id) ==> forall|k: int|
            0 <= k < n && (#[trigger] locals[k]).id == id && (forall|j: int|
                k < j < n ==> (#[trigger] locals[j]).id != id) ==> locals[k].mutable,
    decreases n,
{
    if n > 0 {
        if locals[n - 1].id != id {
            lemma_mutable_local(locals, n - 1, id);
        } else if locals[n - 1].mutable {
            assert forall|k: int|
                0 <= k < n && (#[trigger] locals[k]).id == id && (forall|j: int|
                    k < j < n ==> (#[trigger] locals[j]).id != id) implies locals[k].mutable by {
                if k < n - 1 {
                    assert(locals[n - 1].id != id);
                }
            }
        }
    }
}

proof fn lemma_mutable_places(env: Env, place: TypedPlaceView)
    ensures
        typing::place_is_mutable(env, place) ==> can_be_assigned(env, place),
    decreases place,
{
    match place {
        TypedPlaceView::Local { id, .. } => {
            lemma_mutable_local(env.locals, env.locals.len() as int, id);
        },
        TypedPlaceView::Global { name, .. } => {
            lemma_declared(env.ctx, name, Sort::Variable);
            if let Some(i) = env.ctx.find(name, Sort::Variable) {
                assert(is_declared(env.ctx, i, name, Sort::Variable));
            }
        },
        TypedPlaceView::Field { base, .. } => {
            lemma_mutable_places(env, *base);
        },
        TypedPlaceView::Index { base, .. } => {
            lemma_mutable_places(env, *base);
        },
        _ => {},
    }
}

/// What analysis accepts of a statement says what the statement says.
pub proof fn lemma_accepted_statements_are_right(place: Place, frame: Frame, s: StmtView)
    requires
        infers_alike(place.ctx),
    ensures
        typing::lowered_statement(place, frame, s) matches Ok((t, after)) ==> statement_says(
            place,
            frame.locals,
            t,
            s,
        ) && after.locals == locals_after(frame.locals, t),
    decreases s,
{
    let env = typing::env_of(place, frame);
    let depth = place.ctx.decls.len();
    assert(env == env_at(place, frame.locals));
    match s {
        StmtView::If { condition, then_branch, else_branch, .. } => {
            lemma_accepted_expressions_are_right(env, condition, Some(ResolvedType::Bool), depth);
            lemma_accepted_blocks_are_right(place, frame, then_branch);
            if let Ok((_, after)) = typing::lowered_block(place, frame, then_branch) {
                if let Some(branch) = else_branch {
                    lemma_accepted_blocks_are_right(place, after, branch);
                }
            }
        },
        StmtView::While { condition, body, .. } => {
            lemma_accepted_expressions_are_right(env, condition, Some(ResolvedType::Bool), depth);
            lemma_accepted_blocks_are_right(Place { in_loop: true, ..place }, frame, body);
        },
        StmtView::Defer { call, .. } => {
            lemma_accepted_expressions_are_right(env, call, None, depth);
            if let Ok(TypedExprView::Call {
                function,
                name,
                arguments,
                parameter_types,
                ty,
                span,
            }) = typing::lowered_in(place, frame, call, None) {
                assert(right_at(
                    place,
                    frame.locals,
                    TypedExprView::Call { function, name, arguments, parameter_types, ty, span },
                    call,
                    None,
                ));
            }
        },
        StmtView::Return { value, .. } => {
            if let Some(e) = value {
                lemma_accepted_expressions_are_right(env, e, Some(place.output), depth);
            }
        },
        StmtView::Variable(v) => {
            let declared = match v.ty {
                Some(ty) => Some(resolved(place.ctx, ty)),
                None => None,
            };
            lemma_accepted_expressions_are_right(env, v.value, declared, depth);
        },
        StmtView::Assignment { target, value, .. } => {
            lemma_accepted_places_are_right(env, target, depth);
            if let Ok(stored) = lowered_place(env, target, depth) {
                lemma_mutable_places(env, stored);
                lemma_accepted_expressions_are_right(env, value, Some(stored.ty()), depth);
            }
        },
        StmtView::Expr { expression, .. } => {
            lemma_accepted_expressions_are_right(env, expression, None, depth);
        },
        _ => {},
    }
}

proof fn lemma_accepted_blocks_are_right(place: Place, frame: Frame, b: BlockView)
    requires
        infers_alike(place.ctx),
    ensures
        typing::lowered_block(place, frame, b) matches Ok((t, after)) ==> block_says(
            place,
            frame.locals,
            t,
            b,
        ) && after.locals == frame.locals,
    decreases b,
{
    let inner = Frame {
        locals: frame.locals,
        start: frame.locals.len() as int,
        next: frame.next,
    };
    lemma_accepted_lists_are_right(place, inner, b.statements, 0, Seq::empty());
}

proof fn lemma_accepted_lists_are_right(
    place: Place,
    frame: Frame,
    ss: Seq<StmtView>,
    i: int,
    before: Seq<TypedStmtView>,
)
    requires
        infers_alike(place.ctx),
        0 <= i <= ss.len(),
        before.len() == i,
    ensures
        typing::lowered_statements(place, frame, ss, i, before) matches Ok((ts, _))
            ==> statements_say(place, frame.locals, ts, ss, i) && before.is_prefix_of(ts),
    decreases ss, ss.len() - i,
{
    if i < ss.len() {
        lemma_accepted_statements_are_right(place, frame, ss[i]);
        if let Ok((t, after)) = typing::lowered_statement(place, frame, ss[i]) {
            lemma_accepted_lists_are_right(place, after, ss, i + 1, before.push(t));
            if let Ok((ts, _)) = typing::lowered_statements(place, frame, ss, i, before) {
                assert(before.push(t).is_prefix_of(ts));
                assert(ts[i] == before.push(t)[i]);
                assert forall|k: int| 0 <= k < before.len() implies before[k] == ts[k] by {
                    assert(before.push(t)[k] == ts[k]);
                }
            }
        }
    }
}

// ---------------------------------------------------------------------------
// Functions
// ---------------------------------------------------------------------------

/// The parameters of a function as locals.
pub open spec fn parameter_locals(params: Seq<TypedParameterView>) -> Seq<BindingView> {
    Seq::new(
        params.len(),
        |i: int|
            BindingView { name: params[i].name, id: params[i].id, ty: params[i].ty, mutable: true },
    )
}

/// Whether a typed function says what a function says.
pub open spec fn function_says(ctx: Context, t: TypedFunctionView, f: FunctionDeclView) -> bool {
    &&& t.name == f.name
    &&& t.is_extern == f.is_extern
    &&& t.exported == f.exported
    &&& t.abi == f.abi
    &&& t.link_name == f.link_name
    &&& t.return_type == resolved(ctx, f.return_type)
    &&& t.params.len() == f.params.len()
    &&& forall|i: int|
        0 <= i < t.params.len() ==> (#[trigger] t.params[i]).name == f.params[i].name
            && t.params[i].ty == resolved(ctx, f.params[i].ty)
    &&& statements_say(
        Place {
            ctx,
            is_main: f.name == "main"@ && !f.is_extern,
            output: t.return_type,
            in_loop: false,
        },
        parameter_locals(t.params),
        t.body.statements,
        f.body.statements,
        0,
    )
    &&& exists|i: int| #[trigger]
        is_declared(ctx, i, f.name, Sort::Function) && t.id == ctx.ids[i]
}

proof fn lemma_parameters_are_right(
    ctx: Context,
    frame: Frame,
    params: Seq<ParameterView>,
    i: int,
    before: Seq<TypedParameterView>,
)
    requires
        0 <= i <= params.len(),
        before.len() == i,
        frame.locals == parameter_locals(before),
        forall|k: int|
            0 <= k < i ==> (#[trigger] before[k]).name == params[k].name && before[k].ty
                == resolved(ctx, params[k].ty),
    ensures
        typing::lowered_parameters(ctx, frame, params, i, before) matches Ok((all, after)) ==> {
            &&& all.len() == params.len()
            &&& after.locals == parameter_locals(all)
            &&& forall|k: int|
                0 <= k < all.len() ==> (#[trigger] all[k]).name == params[k].name && all[k].ty
                    == resolved(ctx, params[k].ty)
        },
    decreases params.len() - i,
{
    if i < params.len() {
        let p = params[i];
        let ty = resolved(ctx, p.ty);
        if let Ok((id, after)) = typing::with_local(frame, p.name, ty, true, p.span) {
            let more = before.push(TypedParameterView { id, name: p.name, ty, span: p.span });
            assert(after.locals =~= parameter_locals(more));
            lemma_parameters_are_right(ctx, after, params, i + 1, more);
        }
    }
}

/// What analysis accepts of a function says what the function says.
pub proof fn lemma_accepted_functions_are_right(ctx: Context, f: FunctionDeclView)
    requires
        infers_alike(ctx),
    ensures
        typing::lowered_function(ctx, f) matches Ok(t) ==> function_says(ctx, t, f),
{
    let empty = typing::empty_frame();
    assert(empty.locals =~= parameter_locals(Seq::empty()));
    lemma_parameters_are_right(ctx, empty, f.params, 0, Seq::empty());
    lemma_declared(ctx, f.name, Sort::Function);
    if let Ok((params, frame)) = typing::lowered_parameters(ctx, empty, f.params, 0, Seq::empty()) {
        let place = Place {
            ctx,
            is_main: typing::is_main(f),
            output: resolved(ctx, f.return_type),
            in_loop: false,
        };
        lemma_accepted_lists_are_right(place, frame, f.body.statements, 0, Seq::empty());
        if let Some(i) = ctx.find(f.name, Sort::Function) {
            assert(is_declared(ctx, i, f.name, Sort::Function));
        }
    }
}

/// Whether typed functions say what the functions among the first `n`
/// declarations say.
pub open spec fn functions_say(ctx: Context, n: int, ts: Seq<TypedFunctionView>) -> bool
    decreases n,
{
    if n <= 0 || n > ctx.decls.len() {
        ts.len() == 0
    } else {
        match ctx.decls[n - 1] {
            DeclView::Function(f) => ts.len() > 0 && function_says(ctx, ts.last(), f)
                && functions_say(ctx, n - 1, ts.drop_last()),
            _ => functions_say(ctx, n - 1, ts),
        }
    }
}

proof fn lemma_function_lists_are_right(ctx: Context, i: int, before: Seq<TypedFunctionView>)
    requires
        infers_alike(ctx),
        0 <= i <= ctx.decls.len(),
        functions_say(ctx, i, before),
    ensures
        typing::lowered_functions(ctx, i, before) matches Ok(ts) ==> functions_say(
            ctx,
            ctx.decls.len() as int,
            ts,
        ),
    decreases ctx.decls.len() - i,
{
    if i < ctx.decls.len() {
        match ctx.decls[i] {
            DeclView::Function(f) => {
                lemma_accepted_functions_are_right(ctx, f);
                if let Ok(t) = typing::lowered_function(ctx, f) {
                    assert(before.push(t).drop_last() =~= before);
                    lemma_function_lists_are_right(ctx, i + 1, before.push(t));
                }
            },
            _ => {
                lemma_function_lists_are_right(ctx, i + 1, before);
            },
        }
    }
}

/// The functions of a program that analysis accepts are those of the program, in
/// order, and each says what it says there, with every expression of the type
/// that is asked of it.
pub proof fn lemma_accepted_programs_are_right(m: FloatModel, ctx: Context)
    requires
        infers_alike(ctx),
    ensures
        typing::lowered_program(m, ctx) matches Ok(program) ==> functions_say(
            ctx,
            ctx.decls.len() as int,
            program.functions,
        ),
{
    lemma_function_lists_are_right(ctx, 0, Seq::empty());
}

} // verus!
