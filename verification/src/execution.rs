//! What running a program means.
use crate::ast::{BinaryOp, UnaryOp};
use crate::floats::FloatModel;
use crate::integers::held;
use crate::interpreter::ValueView;
use crate::mir;
use crate::mir::{
    active, function_by_id, BlockId, MirBlockView, MirCleanupView, MirFunctionView,
    MirInstructionView, MirProgramView, MirTerminatorView,
};
use crate::ops;
use crate::text::decimal;
use crate::typed::{
    DefId, FunctionId, IntegerWidth, LayoutKind, LowLevelOperation, ResolvedType, TypedConstantView,
    TypedExprView, TypedFieldView, TypedFunctionView, TypedGlobalView, TypedParameterView,
    TypedPlaceView, TypedProgramView, TypedStructView,
};
use vstd::prelude::*;

verus! {

/// How many blocks one run may enter.
pub const MAX_STEPS: u64 = 1_000_000;

/// How many calls may be active at once.
pub const MAX_CALL_DEPTH: u64 = 1_024;

/// What is run, and on what machine.
pub ghost struct World {
    pub program: TypedProgramView,
    pub mir: MirProgramView,
    pub pointer_bits: u32,
    pub floats: FloatModel,
}

/// What outlives a call: the globals by identity, and the blocks entered.
pub ghost struct Heap {
    pub globals: Map<u32, ValueView>,
    pub steps: u64,
}

/// The locals of a call, by identity.
pub type Locals = Map<u32, ValueView>;

/// Why an evaluation stops: it fails with a message, or `?` meets an error. The
/// error leaves the function, and the heap is what was left behind until then.
pub ghost enum StopView {
    Failed(Seq<char>),
    Left(ValueView, Heap),
}

/// A value and what it left behind, or why there is none.
pub type Evaluated = Result<(ValueView, Heap), StopView>;

/// What a call gives and what it left behind, or the message of a failure.
pub type Ran = Result<(ValueView, Heap), Seq<char>>;

// ---------------------------------------------------------------------------
// Layout
// ---------------------------------------------------------------------------

/// The size and alignment of a type, and the offsets of its fields.
pub ghost struct Layout {
    pub size: nat,
    pub align: nat,
    pub offsets: Seq<(Seq<char>, nat)>,
}

/// The least multiple of `align` that is at least `value`.
pub open spec fn aligned(value: nat, align: nat) -> nat {
    if align <= 1 {
        value
    } else {
        (((value + align - 1) as nat) / align) * align
    }
}

/// Whether a number fits in 64 bits.
pub open spec fn fits(n: nat) -> bool {
    n <= u64::MAX
}

pub open spec fn plain_layout(size: nat, align: nat) -> Option<Layout> {
    Some(Layout { size, align, offsets: Seq::empty() })
}

pub open spec fn bytes_of(bits: nat) -> nat {
    if bits / 8 == 0 {
        1
    } else {
        bits / 8
    }
}

pub open spec fn at_most_eight(n: nat) -> nat {
    if n > 8 {
        8
    } else {
        n
    }
}

pub open spec fn larger(a: nat, b: nat) -> nat {
    if a >= b {
        a
    } else {
        b
    }
}

/// The first struct from `i` on that has the identity.
pub open spec fn struct_by_id(structs: Seq<TypedStructView>, i: int, id: DefId) -> Option<
    TypedStructView,
>
    decreases structs.len() - i,
{
    if i < 0 || i >= structs.len() {
        None
    } else if structs[i].id == id {
        Some(structs[i])
    } else {
        struct_by_id(structs, i + 1, id)
    }
}

/// The layout of a type, where structs nest at most `depth` deep. There is
/// none for a struct that holds itself, nor where a size does not fit in 64
/// bits.
pub open spec fn layout(
    structs: Seq<TypedStructView>,
    ty: ResolvedType,
    pointer_bits: u32,
    depth: nat,
) -> Option<Layout>
    decreases depth, 0int, 0int, ty,
{
    match ty {
        ResolvedType::Unit => plain_layout(0, 1),
        ResolvedType::Bool => plain_layout(1, 1),
        ResolvedType::Integer { width, .. } => match width {
            IntegerWidth::Bits(bits) => plain_layout(
                bytes_of(bits as nat),
                at_most_eight(bytes_of(bits as nat)),
            ),
            IntegerWidth::Pointer => plain_layout(
                bytes_of(pointer_bits as nat),
                bytes_of(pointer_bits as nat),
            ),
        },
        ResolvedType::Float { bits } => plain_layout(
            bytes_of(bits as nat),
            at_most_eight(bytes_of(bits as nat)),
        ),
        ResolvedType::Pointer(_) => plain_layout(
            bytes_of(pointer_bits as nat),
            bytes_of(pointer_bits as nat),
        ),
        ResolvedType::Slice(_) => plain_layout(
            bytes_of(pointer_bits as nat) * 2,
            bytes_of(pointer_bits as nat),
        ),
        ResolvedType::Array { length, element } => match layout(
            structs,
            *element,
            pointer_bits,
            depth,
        ) {
            None => None,
            Some(inner) => if fits(inner.size * length as nat) {
                plain_layout(inner.size * length as nat, inner.align)
            } else {
                None
            },
        },
        ResolvedType::Result { success, error } => match (
            layout(structs, *success, pointer_bits, depth),
            layout(structs, *error, pointer_bits, depth),
        ) {
            (Some(a), Some(b)) => result_layout(a, b),
            _ => None,
        },
        ResolvedType::Struct(id) => match struct_by_id(structs, 0, id) {
            None => plain_layout(0, 1),
            Some(structure) => if depth == 0 {
                None
            } else {
                fields_layout(
                    structs,
                    structure.fields,
                    pointer_bits,
                    0,
                    Layout { size: 0, align: 1, offsets: Seq::empty() },
                    (depth - 1) as nat,
                )
            },
        },
    }
}

/// A tag of one byte, then the success value, then the error value.
pub open spec fn result_layout(a: Layout, b: Layout) -> Option<Layout> {
    let align = larger(larger(a.align, b.align), 1);
    let start = aligned(1, a.align);
    let end = aligned(start + a.size, b.align);
    let size = aligned(end + b.size, align);
    if fits(size) {
        plain_layout(size, align)
    } else {
        None
    }
}

/// The fields from `i` on, after those that `before` lays out.
pub open spec fn fields_layout(
    structs: Seq<TypedStructView>,
    fields: Seq<TypedFieldView>,
    pointer_bits: u32,
    i: int,
    before: Layout,
    depth: nat,
) -> Option<Layout>
    decreases depth, 1int, fields.len() - i, fields,
{
    if i < 0 || i >= fields.len() {
        if fits(aligned(before.size, before.align)) {
            Some(Layout { size: aligned(before.size, before.align), ..before })
        } else {
            None
        }
    } else {
        match layout(structs, fields[i].ty, pointer_bits, depth) {
            None => None,
            Some(inner) => {
                let offset = aligned(before.size, inner.align);
                if fits(offset + inner.size) {
                    fields_layout(
                        structs,
                        fields,
                        pointer_bits,
                        i + 1,
                        Layout {
                            size: offset + inner.size,
                            align: larger(before.align, inner.align),
                            offsets: before.offsets.push((fields[i].name, offset)),
                        },
                        depth,
                    )
                } else {
                    None
                }
            },
        }
    }
}

/// The offset of the last of the first `n` fields of the name.
pub open spec fn offset_of(offsets: Seq<(Seq<char>, nat)>, n: int, name: Seq<char>) -> Option<nat>
    decreases n,
{
    if n <= 0 || n > offsets.len() {
        None
    } else if offsets[n - 1].0 == name {
        Some(offsets[n - 1].1)
    } else {
        offset_of(offsets, n - 1, name)
    }
}

/// What a layout query gives.
pub open spec fn layout_value(
    w: World,
    kind: LayoutKind,
    target: ResolvedType,
    field: Option<Seq<char>>,
) -> Result<ValueView, Seq<char>> {
    match layout(w.program.structs, target, w.pointer_bits, w.program.structs.len()) {
        None => Err("type has no layout"@),
        Some(found) => match kind {
            LayoutKind::Size => Ok(ValueView::Int(found.size as i128)),
            LayoutKind::Align => Ok(ValueView::Int(found.align as i128)),
            LayoutKind::Offset => match field {
                None => Err("unknown field in layout query"@),
                Some(name) => match offset_of(
                    found.offsets,
                    found.offsets.len() as int,
                    name,
                ) {
                    Some(offset) => Ok(ValueView::Int(offset as i128)),
                    None => Err("unknown field in layout query"@),
                },
            },
        },
    }
}

// ---------------------------------------------------------------------------
// Values
// ---------------------------------------------------------------------------

pub open spec fn truth_of(value: ValueView) -> Result<bool, Seq<char>> {
    match value {
        ValueView::Bool(b) => Ok(b),
        ValueView::Int(n) => Ok(n != 0),
        _ => Err("condition is not boolean"@),
    }
}

pub open spec fn index_of(value: ValueView) -> Result<nat, Seq<char>> {
    match value {
        ValueView::Int(n) => if n >= 0 {
            Ok(n as nat)
        } else {
            Err("index is not a non-negative integer"@)
        },
        _ => Err("index is not a non-negative integer"@),
    }
}

pub open spec fn scalar(value: ValueView) -> Result<ops::ValueView, Seq<char>> {
    match value {
        ValueView::Bool(b) => Ok(ops::ValueView::Bool(b)),
        ValueView::Int(n) => Ok(ops::ValueView::Integer(n)),
        ValueView::Float(x) => Ok(ops::ValueView::Float(x)),
        _ => Err("aggregate is not a primitive value"@),
    }
}

pub open spec fn lifted(value: ops::ValueView) -> ValueView {
    match value {
        ops::ValueView::Bool(b) => ValueView::Bool(b),
        ops::ValueView::Integer(n) => ValueView::Int(n),
        ops::ValueView::Float(x) => ValueView::Float(x),
    }
}

pub open spec fn lifted_result(r: Result<ops::ValueView, ops::Error>) -> Result<
    ValueView,
    Seq<char>,
> {
    match r {
        Ok(value) => Ok(lifted(value)),
        Err(ops::Error::DivisionByZero) => Err("integer division failed"@),
        Err(ops::Error::InvalidOperation) => Err("unsupported primitive operation"@),
    }
}

pub open spec fn unary_of(w: World, op: UnaryOp, value: ValueView, ty: ResolvedType) -> Result<
    ValueView,
    Seq<char>,
> {
    match scalar(value) {
        Err(message) => Err(message),
        Ok(x) => lifted_result(
            ops::unary_of(
                op,
                x,
                ops::width_of(ty, w.pointer_bits).0,
                ops::width_of(ty, w.pointer_bits).1,
            ),
        ),
    }
}

pub open spec fn binary_of(
    w: World,
    op: BinaryOp,
    left: ValueView,
    right: ValueView,
    ty: ResolvedType,
) -> Result<ValueView, Seq<char>> {
    match scalar(left) {
        Err(message) => Err(message),
        Ok(a) => match scalar(right) {
            Err(message) => Err(message),
            Ok(b) => lifted_result(
                ops::binary_of(
                    w.floats,
                    op,
                    a,
                    b,
                    ops::width_of(ty, w.pointer_bits).0,
                    ops::width_of(ty, w.pointer_bits).1,
                ),
            ),
        },
    }
}

/// A value that leaves the heap as it is.
pub open spec fn pure(r: Result<ValueView, Seq<char>>, heap: Heap) -> Evaluated {
    match r {
        Ok(value) => Ok((value, heap)),
        Err(message) => failed(message),
    }
}

pub open spec fn failed<T>(message: Seq<char>) -> Result<T, StopView> {
    Err(StopView::Failed(message))
}

/// The message of an evaluation that stops where there is no function to leave.
pub open spec fn message_of(stop: StopView) -> Seq<char> {
    match stop {
        StopView::Failed(message) => message,
        StopView::Left(..) => "propagation has no function to leave"@,
    }
}

/// A call as part of an expression.
pub open spec fn within(r: Ran) -> Evaluated {
    match r {
        Ok(found) => Ok(found),
        Err(message) => failed(message),
    }
}

pub open spec fn operation_name(operation: LowLevelOperation) -> Seq<char> {
    match operation {
        LowLevelOperation::VolatileLoad => "VolatileLoad"@,
        LowLevelOperation::VolatileStore => "VolatileStore"@,
        LowLevelOperation::AtomicLoad => "AtomicLoad"@,
        LowLevelOperation::AtomicStore => "AtomicStore"@,
        LowLevelOperation::Fence => "Fence"@,
    }
}

// ---------------------------------------------------------------------------
// Expressions
// ---------------------------------------------------------------------------

pub open spec fn unknown_global(name: Seq<char>) -> Seq<char> {
    "unknown global `"@ + name + "`"@
}

/// The value of an expression. `depth` more calls may be active.
pub open spec fn evaluated(
    w: World,
    heap: Heap,
    env: Locals,
    e: TypedExprView,
    depth: nat,
) -> Evaluated
    decreases depth, 1int, 0int, e, 0int,
{
    match e {
        TypedExprView::Integer { value, ty, .. } => Ok(
            (
                ValueView::Int(
                    held(
                        value as int,
                        ops::width_of(ty, w.pointer_bits).0,
                        ops::width_of(ty, w.pointer_bits).1,
                    ) as i128,
                ),
                heap,
            ),
        ),
        TypedExprView::Float { value, .. } => Ok((ValueView::Float(value), heap)),
        TypedExprView::Bool { value, .. } => Ok((ValueView::Bool(value), heap)),
        TypedExprView::Null { .. } => failed("null/pointers are unsupported by the interpreter"@),
        TypedExprView::Load { id, .. } => if env.dom().contains(id.0) {
            Ok((env[id.0], heap))
        } else {
            failed("unknown local"@)
        },
        TypedExprView::GlobalLoad { id, name, .. } => if heap.globals.dom().contains(id.0) {
            Ok((heap.globals[id.0], heap))
        } else {
            failed(unknown_global(name))
        },
        TypedExprView::Field { place, .. } => loaded(w, heap, env, *place, depth),
        TypedExprView::Index { place, .. } => loaded(w, heap, env, *place, depth),
        TypedExprView::StructLiteral { fields, .. } => match all_evaluated(
            w,
            heap,
            env,
            fields,
            0,
            Seq::empty(),
            depth,
        ) {
            Err(stop) => Err(stop),
            Ok((values, after)) => Ok((ValueView::Struct(values), after)),
        },
        TypedExprView::ArrayLiteral { elements, .. } => match all_evaluated(
            w,
            heap,
            env,
            elements,
            0,
            Seq::empty(),
            depth,
        ) {
            Err(stop) => Err(stop),
            Ok((values, after)) => Ok((ValueView::Array(values), after)),
        },
        TypedExprView::Unary { operator, operand, ty, .. } => match evaluated(
            w,
            heap,
            env,
            *operand,
            depth,
        ) {
            Err(stop) => Err(stop),
            Ok((value, after)) => pure(unary_of(w, operator, value, ty), after),
        },
        TypedExprView::Binary { left, operator, right, operand_type, .. } => match evaluated(
            w,
            heap,
            env,
            *left,
            depth,
        ) {
            Err(stop) => Err(stop),
            Ok((a, after)) => {
                let logical = operator == BinaryOp::LogicalAnd || operator == BinaryOp::LogicalOr;
                if logical && truth_of(a) is Err {
                    failed(truth_of(a)->Err_0)
                } else if operator == BinaryOp::LogicalAnd && !truth_of(a)->Ok_0 {
                    Ok((ValueView::Bool(false), after))
                } else if operator == BinaryOp::LogicalOr && truth_of(a)->Ok_0 {
                    Ok((ValueView::Bool(true), after))
                } else {
                    match evaluated(w, after, env, *right, depth) {
                        Err(stop) => Err(stop),
                        Ok((b, last)) => pure(binary_of(w, operator, a, b, operand_type), last),
                    }
                }
            },
        },
        TypedExprView::Call { function, arguments, .. } => match all_evaluated(
            w,
            heap,
            env,
            arguments,
            0,
            Seq::empty(),
            depth,
        ) {
            Err(stop) => Err(stop),
            Ok((values, after)) => within(called(w, after, function, values, depth)),
        },
        TypedExprView::MakeSlice { .. } =>
            failed("interpreter does not support raw-pointer slice construction"@),
        TypedExprView::LowLevel { operation, .. } =>
            failed("interpreter does not support low-level operation "@
                + operation_name(operation)),
        TypedExprView::Layout { kind, target, field, .. } => pure(
            layout_value(w, kind, target, field),
            heap,
        ),
        TypedExprView::ResultOk { value, .. } => match evaluated(w, heap, env, *value, depth) {
            Err(stop) => Err(stop),
            Ok((inner, after)) => Ok(
                (ValueView::Result { error: false, value: Box::new(inner) }, after),
            ),
        },
        TypedExprView::ResultErr { value, .. } => match evaluated(w, heap, env, *value, depth) {
            Err(stop) => Err(stop),
            Ok((inner, after)) => Ok(
                (ValueView::Result { error: true, value: Box::new(inner) }, after),
            ),
        },
        TypedExprView::IsErr { value, .. } => match evaluated(w, heap, env, *value, depth) {
            Err(stop) => Err(stop),
            Ok((ValueView::Result { error, .. }, after)) => Ok((ValueView::Bool(error), after)),
            Ok(_) => failed("is_err requires a result"@),
        },
        TypedExprView::Unwrap { value, .. } => match evaluated(w, heap, env, *value, depth) {
            Err(stop) => Err(stop),
            Ok((ValueView::Result { error, value: inner }, after)) => if error {
                failed("unwrap of an error result"@)
            } else {
                Ok((*inner, after))
            },
            Ok(_) => failed("unwrap requires a result"@),
        },
        TypedExprView::Propagate { value, .. } => match evaluated(w, heap, env, *value, depth) {
            Err(stop) => Err(stop),
            Ok((ValueView::Result { error, value: inner }, after)) => if error {
                Err(StopView::Left(ValueView::Result { error: true, value: inner }, after))
            } else {
                Ok((*inner, after))
            },
            Ok(_) => failed("propagation requires a result"@),
        },
        TypedExprView::AddressOf { .. } =>
            failed("raw pointers are unsupported by the interpreter"@),
        TypedExprView::Dereference { .. } =>
            failed("raw pointers are unsupported by the interpreter"@),
    }
}

/// The values of expressions from `i` on, after those before it.
pub open spec fn all_evaluated(
    w: World,
    heap: Heap,
    env: Locals,
    es: Seq<TypedExprView>,
    i: int,
    before: Seq<ValueView>,
    depth: nat,
) -> Result<(Seq<ValueView>, Heap), StopView>
    decreases depth, 1int, 0int, es, es.len() - i,
{
    if i < 0 || i >= es.len() {
        Ok((before, heap))
    } else {
        match evaluated(w, heap, env, es[i], depth) {
            Err(stop) => Err(stop),
            Ok((value, after)) => all_evaluated(
                w,
                after,
                env,
                es,
                i + 1,
                before.push(value),
                depth,
            ),
        }
    }
}

/// One of several values.
pub open spec fn selected(
    values: Seq<ValueView>,
    i: int,
    heap: Heap,
    message: Seq<char>,
) -> Evaluated {
    if 0 <= i < values.len() {
        Ok((values[i], heap))
    } else {
        failed(message)
    }
}

/// What is stored in a place.
pub open spec fn loaded(
    w: World,
    heap: Heap,
    env: Locals,
    place: TypedPlaceView,
    depth: nat,
) -> Evaluated
    decreases depth, 1int, 0int, place, 0int,
{
    match place {
        TypedPlaceView::Local { id, .. } => if env.dom().contains(id.0) {
            Ok((env[id.0], heap))
        } else {
            failed("unknown local"@)
        },
        TypedPlaceView::Global { id, name, .. } => if heap.globals.dom().contains(id.0) {
            Ok((heap.globals[id.0], heap))
        } else {
            failed(unknown_global(name))
        },
        TypedPlaceView::Field { base, index, .. } => match loaded(w, heap, env, *base, depth) {
            Err(stop) => Err(stop),
            Ok((ValueView::Struct(fields), after)) => selected(
                fields,
                index as int,
                after,
                "field index out of range"@,
            ),
            Ok(_) => failed("field base is not a struct"@),
        },
        TypedPlaceView::Index { base, index, .. } => match evaluated(
            w,
            heap,
            env,
            *index,
            depth,
        ) {
            Err(stop) => Err(stop),
            Ok((number, after)) => match index_of(number) {
                Err(message) => failed(message),
                Ok(i) => match loaded(w, after, env, *base, depth) {
                    Err(stop) => Err(stop),
                    Ok((ValueView::Array(values), last)) => selected(
                        values,
                        i as int,
                        last,
                        "index out of bounds"@,
                    ),
                    Ok(_) => failed("interpreter only supports array indexing"@),
                },
            },
        },
        TypedPlaceView::Temporary { .. } =>
            failed("cannot assign through a temporary in the interpreter"@),
        TypedPlaceView::Dereference { .. } =>
            failed("raw pointer dereference is unsupported by the interpreter"@),
    }
}

/// The heap and the locals with a value stored in a place.
pub open spec fn stored(
    w: World,
    heap: Heap,
    env: Locals,
    place: TypedPlaceView,
    value: ValueView,
    depth: nat,
) -> Result<(Heap, Locals), StopView>
    decreases depth, 2int, 0int, place, 0int,
{
    match place {
        TypedPlaceView::Local { id, .. } => Ok((heap, env.insert(id.0, value))),
        TypedPlaceView::Global { id, .. } => Ok(
            (Heap { globals: heap.globals.insert(id.0, value), ..heap }, env),
        ),
        TypedPlaceView::Field { base, index, .. } => match loaded(w, heap, env, *base, depth) {
            Err(stop) => Err(stop),
            Ok((ValueView::Struct(fields), after)) => if index < fields.len() {
                stored(
                    w,
                    after,
                    env,
                    *base,
                    ValueView::Struct(fields.update(index as int, value)),
                    depth,
                )
            } else {
                failed("field index out of range"@)
            },
            Ok(_) => failed("field base is not a struct"@),
        },
        TypedPlaceView::Index { base, index, .. } => match loaded(w, heap, env, *base, depth) {
            Err(stop) => Err(stop),
            Ok((whole, after)) => match evaluated(w, after, env, *index, depth) {
                Err(stop) => Err(stop),
                Ok((number, last)) => match index_of(number) {
                    Err(message) => failed(message),
                    Ok(i) => match whole {
                        ValueView::Array(values) => if i < values.len() {
                            stored(
                                w,
                                last,
                                env,
                                *base,
                                ValueView::Array(values.update(i as int, value)),
                                depth,
                            )
                        } else {
                            failed("index out of bounds"@)
                        },
                        _ => failed("interpreter only supports array indexing"@),
                    },
                },
            },
        },
        _ => failed("raw pointer assignment is unsupported by the interpreter"@),
    }
}

// ---------------------------------------------------------------------------
// Calls
// ---------------------------------------------------------------------------

/// The first function from `i` on that has the identity.
pub open spec fn typed_function_by_id(
    functions: Seq<TypedFunctionView>,
    i: int,
    id: FunctionId,
) -> Option<TypedFunctionView>
    decreases functions.len() - i,
{
    if i < 0 || i >= functions.len() {
        None
    } else if functions[i].id == id {
        Some(functions[i])
    } else {
        typed_function_by_id(functions, i + 1, id)
    }
}

/// The parameters from `i` on, bound to their arguments.
pub open spec fn bound(
    params: Seq<TypedParameterView>,
    values: Seq<ValueView>,
    i: int,
    env: Locals,
) -> Locals
    decreases params.len() - i,
{
    if i < 0 || i >= params.len() || i >= values.len() {
        env
    } else {
        bound(params, values, i + 1, env.insert(params[i].id.0, values[i]))
    }
}

/// The value of a call.
pub open spec fn called(
    w: World,
    heap: Heap,
    id: FunctionId,
    values: Seq<ValueView>,
    depth: nat,
) -> Ran
    decreases depth, 0int, 0int, values, 0int,
{
    if depth == 0 {
        Err("interpreter call-depth limit exceeded"@)
    } else {
        match typed_function_by_id(w.program.functions, 0, id) {
            None => Err("unknown function id "@ + id.text()),
            Some(typed) => if typed.is_extern {
                Err("interpreter does not support foreign function `"@ + typed.name + "`"@)
            } else {
                match function_by_id(w.mir.functions, 0, id) {
                    None => Err("unknown MIR function id "@ + id.text()),
                    Some(f) => if f.params.len() != values.len() {
                        Err("wrong number of arguments to `"@ + typed.name + "`"@)
                    } else {
                        blocks_run(
                            w,
                            heap,
                            bound(f.params, values, 0, Map::empty()),
                            f,
                            f.entry,
                            (depth - 1) as nat,
                            (MAX_STEPS + 1) as nat,
                        )
                    },
                }
            },
        }
    }
}

/// The first block from `i` on that has the identity.
pub open spec fn block_by_id(blocks: Seq<MirBlockView>, i: int, id: BlockId) -> Option<MirBlockView>
    decreases blocks.len() - i,
{
    if i < 0 || i >= blocks.len() {
        None
    } else if blocks[i].id == id {
        Some(blocks[i])
    } else {
        block_by_id(blocks, i + 1, id)
    }
}

pub open spec fn step_limit() -> Seq<char> {
    "interpreter execution step limit exceeded"@
}

/// What a function gives from block `at` on. Each block entered counts one
/// step of the run, so fewer than `rounds` of them can follow.
pub open spec fn blocks_run(
    w: World,
    heap: Heap,
    env: Locals,
    f: MirFunctionView,
    at: BlockId,
    depth: nat,
    rounds: nat,
) -> Ran
    decreases depth, 4int, rounds as int, f.blocks, 0int,
{
    if heap.steps >= MAX_STEPS || rounds == 0 {
        Err(step_limit())
    } else {
        let counted = Heap { steps: (heap.steps + 1) as u64, ..heap };
        match block_by_id(f.blocks, 0, at) {
            None => Err("unknown MIR block "@ + decimal(at.0 as nat)),
            Some(block) => match steps_run(
                w,
                counted,
                env,
                active(f, block.id),
                block.instructions,
                0,
                depth,
            ) {
                Err(message) => Err(message),
                Ok(Stepped::Left(value, after)) => handed_on(f, Ok((value, after))),
                Ok(Stepped::Done(after, locals)) => match block.terminator {
                    MirTerminatorView::Jump(target) => blocks_run(
                        w,
                        after,
                        locals,
                        f,
                        target,
                        depth,
                        (rounds - 1) as nat,
                    ),
                    MirTerminatorView::Branch {
                        condition,
                        then_block,
                        else_block,
                        ..
                    } => match evaluated(w, after, locals, condition, depth) {
                        Err(stop) => handed_on(
                            f,
                            stopped(w, stop, locals, active(f, block.id), depth),
                        ),
                        Ok((value, last)) => match truth_of(value) {
                            Err(message) => Err(message),
                            Ok(holds) => blocks_run(
                                w,
                                last,
                                locals,
                                f,
                                if holds {
                                    then_block
                                } else {
                                    else_block
                                },
                                depth,
                                (rounds - 1) as nat,
                            ),
                        },
                    },
                    MirTerminatorView::Return(value) => match value {
                        Some(e) => match evaluated(w, after, locals, e, depth) {
                            Err(stop) => handed_on(
                                f,
                                stopped(w, stop, locals, active(f, block.id), depth),
                            ),
                            Ok(found) => Ok(found),
                        },
                        None => Ok((ValueView::Unit, after)),
                    },
                    MirTerminatorView::Unreachable => Err("reached MIR unreachable terminator"@),
                },
            },
        }
    }
}

/// The end of a block's steps: done, or left with an error that is handed on.
pub ghost enum Stepped {
    Done(Heap, Locals),
    Left(ValueView, Heap),
}

/// An error that leaves a function, which hands it on where it gives a result.
/// No other function can: there the run ends.
pub open spec fn handed_on(f: MirFunctionView, r: Ran) -> Ran {
    match r {
        Ok(found) => if f.return_type is Result {
            Ok(found)
        } else {
            Err("an error left function `"@ + f.name + "`"@)
        },
        Err(message) => Err(message),
    }
}

pub open spec fn leaving(r: Ran) -> Result<Stepped, Seq<char>> {
    match r {
        Ok((value, after)) => Ok(Stepped::Left(value, after)),
        Err(message) => Err(message),
    }
}

/// What becomes of an evaluation that stops: an error leaves the function once
/// what is deferred has run.
pub open spec fn stopped(
    w: World,
    stop: StopView,
    env: Locals,
    cleanup: Seq<MirCleanupView>,
    depth: nat,
) -> Ran
    decreases depth, 3int, 0int, cleanup, 0int,
{
    match stop {
        StopView::Failed(message) => Err(message),
        StopView::Left(value, heap) => match cleanup_run(w, heap, env, cleanup, 0, depth) {
            Err(message) => Err(message),
            Ok(after) => Ok((value, after)),
        },
    }
}

/// The steps of a block from `i` on.
pub open spec fn steps_run(
    w: World,
    heap: Heap,
    env: Locals,
    cleanup: Seq<MirCleanupView>,
    steps: Seq<MirInstructionView>,
    i: int,
    depth: nat,
) -> Result<Stepped, Seq<char>>
    decreases depth, 3int, steps.len() - i + 1, cleanup, 0int,
{
    if i < 0 || i >= steps.len() {
        Ok(Stepped::Done(heap, env))
    } else {
        match steps[i] {
            MirInstructionView::Declare { id, value, .. } => match evaluated(
                w,
                heap,
                env,
                value,
                depth,
            ) {
                Err(stop) => leaving(stopped(w, stop, env, cleanup, depth)),
                Ok((found, after)) => steps_run(
                    w,
                    after,
                    env.insert(id.0, found),
                    cleanup,
                    steps,
                    i + 1,
                    depth,
                ),
            },
            MirInstructionView::Store { target, value, .. } => match evaluated(
                w,
                heap,
                env,
                value,
                depth,
            ) {
                Err(stop) => leaving(stopped(w, stop, env, cleanup, depth)),
                Ok((found, after)) => match stored(w, after, env, target, found, depth) {
                    Err(stop) => leaving(stopped(w, stop, env, cleanup, depth)),
                    Ok((last, locals)) => steps_run(
                        w,
                        last,
                        locals,
                        cleanup,
                        steps,
                        i + 1,
                        depth,
                    ),
                },
            },
            MirInstructionView::Expr { expression, .. } => match evaluated(
                w,
                heap,
                env,
                expression,
                depth,
            ) {
                Err(stop) => leaving(stopped(w, stop, env, cleanup, depth)),
                Ok((_, after)) => steps_run(w, after, env, cleanup, steps, i + 1, depth),
            },
            MirInstructionView::RunCleanup { actions } => match cleanup_run(
                w,
                heap,
                env,
                actions,
                0,
                depth,
            ) {
                Err(message) => Err(message),
                Ok(after) => steps_run(w, after, env, cleanup, steps, i + 1, depth),
            },
        }
    }
}

/// The deferred calls from `i` on, in order.
pub open spec fn cleanup_run(
    w: World,
    heap: Heap,
    env: Locals,
    actions: Seq<MirCleanupView>,
    i: int,
    depth: nat,
) -> Result<Heap, Seq<char>>
    decreases depth, 2int, actions.len() - i, actions, 0int,
{
    if i < 0 || i >= actions.len() {
        Ok(heap)
    } else {
        match all_evaluated(w, heap, env, actions[i].arguments, 0, Seq::empty(), depth) {
            Err(stop) => Err(message_of(stop)),
            Ok((values, after)) => match called(w, after, actions[i].function, values, depth) {
                Err(message) => Err(message),
                Ok((_, last)) => cleanup_run(w, last, env, actions, i + 1, depth),
            },
        }
    }
}

// ---------------------------------------------------------------------------
// Programs
// ---------------------------------------------------------------------------

/// The globals from `i` on, evaluated in order.
pub open spec fn globals_started(
    w: World,
    heap: Heap,
    globals: Seq<TypedGlobalView>,
    i: int,
) -> Result<Heap, Seq<char>>
    decreases globals.len() - i,
{
    if i < 0 || i >= globals.len() {
        Ok(heap)
    } else {
        match evaluated(w, heap, Map::empty(), globals[i].value, MAX_CALL_DEPTH as nat) {
            Err(stop) => Err(message_of(stop)),
            Ok((value, after)) => globals_started(
                w,
                Heap { globals: after.globals.insert(globals[i].id.0, value), ..after },
                globals,
                i + 1,
            ),
        }
    }
}

/// The constants from `i` on, evaluated in order.
pub open spec fn constants_started(
    w: World,
    heap: Heap,
    constants: Seq<TypedConstantView>,
    i: int,
) -> Result<Heap, Seq<char>>
    decreases constants.len() - i,
{
    if i < 0 || i >= constants.len() {
        Ok(heap)
    } else {
        match evaluated(w, heap, Map::empty(), constants[i].value, MAX_CALL_DEPTH as nat) {
            Err(stop) => Err(message_of(stop)),
            Ok((value, after)) => constants_started(
                w,
                Heap { globals: after.globals.insert(constants[i].id.0, value), ..after },
                constants,
                i + 1,
            ),
        }
    }
}

/// What running a program gives: the exit code, or the message of a failure.
pub open spec fn program_run(
    floats: FloatModel,
    program: TypedProgramView,
    pointer_bits: u32,
) -> Result<
    i32,
    Seq<char>,
> {
    match mir::lowered_program(program) {
        Err(error) => Err("MIR lowering failed: "@ + error.message()),
        Ok(blocks) => {
            let w = World { program, mir: blocks, pointer_bits, floats };
            match globals_started(
                w,
                Heap { globals: Map::empty(), steps: 0 },
                program.globals,
                0,
            ) {
                Err(message) => Err(message),
                Ok(heap) => match constants_started(w, heap, program.constants, 0) {
                    Err(message) => Err(message),
                    Ok(ready) => main_run(w, ready),
                },
            }
        },
    }
}

pub open spec fn main_run(w: World, heap: Heap) -> Result<i32, Seq<char>> {
    match crate::semantic::main_from(w.program.functions, 0) {
        None => Err("interpreter requires a source `main` function"@),
        Some(i) => match called(
            w,
            heap,
            w.program.functions[i].id,
            Seq::empty(),
            MAX_CALL_DEPTH as nat,
        ) {
            Err(message) => Err(message),
            Ok((ValueView::Unit, _)) => Ok(0i32),
            Ok((ValueView::Int(n), _)) => Ok(held(n as int, 32, true) as i32),
            Ok(_) => Err("main must return an integer or void"@),
        },
    }
}

} // verus!
