//! Compiled functions give what interpreted ones give.
use crate::emission::{
    all_performed, block_emitted, blocks_emitted, declared, emitted, ended, enter, entered,
    function_emitted, issue, local_of, next, parameter_entered, performed, place_told, told,
    Emission, Surroundings,
};
use crate::execution;
use crate::execution::{blocks_run, evaluated, steps_run, Heap, Locals, Stepped, World};
use crate::faithfulness::{
    divides_safely, is_ready, is_scalar, is_simple, is_stored, keeps, lemma_at, lemma_emitted_grows,
    lemma_emitted_shape, lemma_expressions_run_as_they_evaluate, lemma_extends_is_prefix,
    lemma_local_of, lemma_locals_stay, lemma_low_scalar, lemma_prefixes, lemma_simple_is_scalar,
    lemma_sound_is_ready, lemma_sound_locals, lemma_start, locals_hold, locals_typed, stands,
    stays_out, width_of, LocalTypes,
};
use crate::instructions::{CommandView, LowType, OperandView, ValueView};
use crate::interpreter;
use crate::lexer::Span;
use crate::machine::{
    gone_on, gone_to, lemma_steps_add_up, operand_value, run, start_of, step, Next, State, Val,
};
use crate::mir;
use crate::mir::{MirFunctionView, MirInstructionView, MirTerminatorView};
use crate::soundness::{
    has_blocks, lemma_all_performed, lemma_appended, lemma_block_emitted, lemma_blocks_emitted,
    lemma_ended, lemma_enter, lemma_entered, lemma_parameter_entered, lemma_performed,
    lemma_place_told, lemma_told,
};
use crate::typed::{LocalId, ResolvedType, TypedExprView, TypedParameterView, TypedPlaceView};
use crate::wiring::{reaches, sound};
use vstd::prelude::*;

verus! {

pub type LocalSlots = Seq<(LocalId, OperandView, LowType)>;

// ---------------------------------------------------------------------------
// Plain functions
// ---------------------------------------------------------------------------

/// Whether an expression is simple and divides safely whatever locals hold.
pub open spec fn is_plain(w: World, types: LocalTypes, e: TypedExprView, depth: nat) -> bool {
    &&& is_simple(types, e)
    &&& forall|heap: Heap, env: Locals| #[trigger] divides_safely(w, heap, env, e, depth)
}

/// Whether a step declares or changes a local, or only evaluates.
pub open spec fn is_plain_step(
    w: World,
    types: LocalTypes,
    step: MirInstructionView,
    depth: nat,
) -> bool {
    match step {
        MirInstructionView::Declare { id, ty, value, .. } => {
            &&& types.dom().contains(id.0) && types[id.0] == ty
            &&& is_plain(w, types, value, depth) && value.ty() == ty
        },
        MirInstructionView::Store { target, value, ty, .. } => {
            &&& target matches TypedPlaceView::Local { id, .. } && types.dom().contains(id.0)
                && types[id.0] == ty
            &&& is_plain(w, types, value, depth) && value.ty() == ty
        },
        MirInstructionView::Expr { expression, .. } => is_plain(w, types, expression, depth),
        MirInstructionView::RunCleanup { actions } => actions.len() == 0,
    }
}

/// Whether an end decides and gives plain values and does not lead to the entry.
pub open spec fn is_plain_end(
    w: World,
    types: LocalTypes,
    end: MirTerminatorView,
    ty: ResolvedType,
    depth: nat,
) -> bool {
    match end {
        MirTerminatorView::Jump(target) => target.0 > 0,
        MirTerminatorView::Branch { condition, then_block, else_block, .. } => {
            &&& is_plain(w, types, condition, depth) && condition.ty() == ResolvedType::Bool
            &&& then_block.0 > 0 && else_block.0 > 0
        },
        MirTerminatorView::Return(value) => value matches Some(e) ==> is_plain(w, types, e, depth)
            && e.ty() == ty,
        MirTerminatorView::Unreachable => true,
    }
}

/// The locals that have values behind the first `n` steps.
pub open spec fn set_by(steps: Seq<MirInstructionView>, n: int, before: Set<u32>) -> Set<u32>
    decreases n,
{
    if n <= 0 || n > steps.len() {
        before
    } else {
        match steps[n - 1] {
            MirInstructionView::Declare { id, .. } => set_by(steps, n - 1, before).insert(id.0),
            _ => set_by(steps, n - 1, before),
        }
    }
}

/// Whether steps change only locals that have values.
pub open spec fn changes_set(steps: Seq<MirInstructionView>, before: Set<u32>) -> bool {
    forall|i: int|
        0 <= i < steps.len() ==> (#[trigger] steps[i] matches MirInstructionView::Store {
            target: TypedPlaceView::Local { id, .. },
            ..
        } ==> set_by(steps, i, before).contains(id.0))
}

/// Whether the locals that have values at the start of each block have them
/// wherever an end leads there.
pub open spec fn hands_on(sets: Seq<Set<u32>>, end: MirTerminatorView, after: Set<u32>) -> bool {
    match end {
        MirTerminatorView::Jump(target) => sets[target.0 as int].subset_of(after),
        MirTerminatorView::Branch { then_block, else_block, .. } => sets[then_block.0 as int]
            .subset_of(after) && sets[else_block.0 as int].subset_of(after),
        _ => true,
    }
}

pub open spec fn is_plain_block(
    w: World,
    types: LocalTypes,
    sets: Seq<Set<u32>>,
    f: MirFunctionView,
    k: int,
    depth: nat,
) -> bool {
    let steps = f.blocks[k].instructions;
    &&& forall|i: int|
        0 <= i < steps.len() ==> is_plain_step(w, types, #[trigger] steps[i], depth)
    &&& is_plain_end(w, types, f.blocks[k].terminator, f.return_type, depth)
    &&& changes_set(steps, sets[k])
    &&& hands_on(sets, f.blocks[k].terminator, set_by(steps, steps.len() as int, sets[k]))
}

/// Whether a function computes with integers and truth values only, and changes
/// no local that may have no value. `sets` holds, for each block, locals that
/// have values at its start.
pub open spec fn is_plain_function(
    w: World,
    types: LocalTypes,
    sets: Seq<Set<u32>>,
    f: MirFunctionView,
    depth: nat,
) -> bool {
    &&& mir::well_formed(f)
    &&& f.blocks.len() <= u32::MAX
    &&& f.entry.0 == 0
    &&& sets.len() == f.blocks.len()
    &&& forall|id: u32| #[trigger]
        sets[0].contains(id) ==> exists|i: int|
            0 <= i < f.params.len() && (#[trigger] f.params[i]).id.0 == id
    &&& forall|i: int|
        0 <= i < f.params.len() ==> is_scalar((#[trigger] f.params[i]).ty) && types.dom().contains(
            f.params[i].id.0,
        ) && types[f.params[i].id.0] == f.params[i].ty
    &&& forall|k: int|
        0 <= k < f.blocks.len() ==> is_plain_block(w, types, sets, f, k, depth) && (
        #[trigger] f.blocks[k]).id.0 == k
}

/// Whether every local has an identity of its own.
pub open spec fn are_distinct(locals: LocalSlots) -> bool {
    forall|i: int, j: int|
        0 <= i < j < locals.len() ==> (#[trigger] locals[i]).0 != (#[trigger] locals[j]).0
}

// ---------------------------------------------------------------------------
// How the commands grow
// ---------------------------------------------------------------------------

pub open spec fn is_typed_local(
    types: LocalTypes,
    local: (LocalId, OperandView, LowType),
) -> bool {
    types.dom().contains(local.0.0) && local.2 == LowType::Int(width_of(types[local.0.0]) as u32)
}

/// Whether locals have room for their types, each in a place of its own.
pub open spec fn all_typed(types: LocalTypes, locals: LocalSlots) -> bool {
    &&& forall|i: int| 0 <= i < locals.len() ==> is_typed_local(types, #[trigger] locals[i])
    &&& forall|i: int, j: int|
        0 <= i < j < locals.len() ==> (#[trigger] locals[i]).1 != (#[trigger] locals[j]).1
}

/// Whether a local stands for the result of a command from the `n`th on.
pub open spec fn is_new(local: (LocalId, OperandView, LowType), n: int) -> bool {
    local.1 matches OperandView::Register(r) && r >= n
}

/// Whether `t` is `s` and more, and what is new goes on in blocks from `first`
/// on.
pub open spec fn grows(types: LocalTypes, s: Emission, t: Emission, first: int) -> bool {
    &&& s.commands.is_prefix_of(t.commands)
    &&& s.locals.is_prefix_of(t.locals)
    &&& sound(t)
    &&& all_typed(types, t.locals)
    &&& forall|i: int|
        s.locals.len() <= i < t.locals.len() ==> is_new(
            #[trigger] t.locals[i],
            s.commands.len() as int,
        )
    &&& forall|i: int|
        s.commands.len() <= i < t.commands.len() ==> (#[trigger] t.commands[i] matches
            CommandView::Position { block } ==> block >= first)
}

proof fn lemma_grows_twice(types: LocalTypes, s: Emission, t: Emission, u: Emission, first: int)
    requires
        grows(types, s, t, first),
        grows(types, t, u, first),
    ensures
        grows(types, s, u, first),
{
    lemma_prefixes(s.commands, t.commands, u.commands);
    assert forall|i: int| 0 <= i < s.locals.len() implies s.locals[i] == u.locals[i] by {
        assert(s.locals[i] == t.locals[i]);
        assert(t.locals[i] == u.locals[i]);
    }
    assert forall|i: int| s.locals.len() <= i < u.locals.len() implies is_new(
        #[trigger] u.locals[i],
        s.commands.len() as int,
    ) by {
        if i < t.locals.len() {
            assert(t.locals[i] == u.locals[i]);
        }
    }
    assert forall|i: int| s.commands.len() <= i < u.commands.len() implies (
    #[trigger] u.commands[i] matches CommandView::Position { block } ==> block >= first) by {
        if i < t.commands.len() {
            assert(u.commands[i] == t.commands[i]);
        }
    }
}

proof fn lemma_all_typed(types: LocalTypes, locals: LocalSlots)
    requires
        all_typed(types, locals),
    ensures
        locals_typed(types, locals),
{
    assert forall|id: LocalId| types.dom().contains(id.0) implies (#[trigger] local_of(
        locals,
        locals.len() as int,
        id,
    ) matches Some((_, low)) ==> low == LowType::Int(width_of(types[id.0]) as u32)) by {
        lemma_local_of(locals, locals.len() as int, id);
    }
}

proof fn lemma_told_grows(types: LocalTypes, m: Surroundings, s: Emission, span: Span)
    requires
        sound(s),
        all_typed(types, s.locals),
    ensures
        told(m, s, span).commands.len() <= usize::MAX ==> grows(
            types,
            s,
            told(m, s, span),
            s.commands.len() as int,
        ),
        told(m, s, span).locals == s.locals,
        s.commands.len() <= told(m, s, span).commands.len(),
{
    lemma_told(m, s, span);
    lemma_extends_is_prefix(s, told(m, s, span));
}

/// An expression after the place is told.
proof fn lemma_value_grows(
    types: LocalTypes,
    m: Surroundings,
    s: Emission,
    span: Span,
    e: TypedExprView,
    t: Emission,
    v: ValueView,
)
    requires
        sound(s),
        all_typed(types, s.locals),
        is_simple(types, e),
        emitted(m, told(m, s, span), e) == Ok::<
            (Emission, ValueView),
            crate::instructions::CodegenErrorView,
        >((t, v)),
        t.commands.len() <= usize::MAX,
    ensures
        grows(types, s, t, s.commands.len() as int),
        t.locals == s.locals,
        told(m, s, span).commands.is_prefix_of(t.commands),
        v.ty == LowType::Int(width_of(e.ty()) as u32),
{
    let s0 = told(m, s, span);
    lemma_told_grows(types, m, s, span);
    lemma_emitted_grows(m, s0, e);
    lemma_all_typed(types, s.locals);
    lemma_emitted_shape(m, types, s0, e);
    lemma_prefixes(s.commands, s0.commands, t.commands);
    assert forall|i: int| s.commands.len() <= i < t.commands.len() implies (
    #[trigger] t.commands[i] matches CommandView::Position { block } ==> block
        >= s.commands.len()) by {
        if i < s0.commands.len() {
            assert(t.commands[i] == s0.commands[i]);
        }
    }
}

proof fn lemma_one_more(
    types: LocalTypes,
    locals: LocalSlots,
    local: (LocalId, OperandView, LowType),
)
    requires
        all_typed(types, locals),
        is_typed_local(types, local),
        forall|i: int| 0 <= i < locals.len() ==> (#[trigger] locals[i]).1 != local.1,
    ensures
        all_typed(types, locals.push(local)),
{
    let all = locals.push(local);
    assert forall|i: int, j: int| 0 <= i < j < all.len() implies (#[trigger] all[i]).1 != (
    #[trigger] all[j]).1 by {
        assert(all[i] == locals[i]);
        if j < locals.len() {
            assert(all[j] == locals[j]);
        }
    }
}

proof fn lemma_step_grows(
    w: World,
    types: LocalTypes,
    m: Surroundings,
    s: Emission,
    step: MirInstructionView,
    t: Emission,
    depth: nat,
)
    requires
        sound(s),
        all_typed(types, s.locals),
        is_plain_step(w, types, step, depth),
        performed(m, s, step) == Ok::<Emission, crate::instructions::CodegenErrorView>(t),
        t.commands.len() <= usize::MAX,
    ensures
        grows(types, s, t, s.commands.len() as int),
{
    lemma_performed(m, s, step);
    lemma_extends_is_prefix(s, t);
    match step {
        MirInstructionView::Declare { id, name, ty, value, span, .. } => {
            let (s1, v) = emitted(m, told(m, s, span), value)->Ok_0;
            reveal(declared);
            lemma_value_grows(types, m, s, span, value, s1, v);
            lemma_sound_locals(s, s1.commands.len() as int + 1);
            lemma_one_more(types, s.locals, t.locals.last());
            assert forall|i: int| s.commands.len() <= i < t.commands.len() implies (
            #[trigger] t.commands[i] matches CommandView::Position { block } ==> block
                >= s.commands.len()) by {
                if i < s1.commands.len() {
                    assert(t.commands[i] == s1.commands[i]);
                }
            }
        },
        MirInstructionView::Store { target, value, ty, span } => {
            let (s2, v) = emitted(m, told(m, s, span), value)->Ok_0;
            lemma_told_grows(types, m, s, span);
            lemma_value_grows(types, m, s, span, value, s2, v);
            assert forall|i: int| s.commands.len() <= i < t.commands.len() implies (
            #[trigger] t.commands[i] matches CommandView::Position { block } ==> block
                >= s.commands.len()) by {
                if i < s2.commands.len() {
                    assert(t.commands[i] == s2.commands[i]);
                }
            }
        },
        MirInstructionView::Expr { expression, span } => {
            let (s1, v) = emitted(m, told(m, s, span), expression)->Ok_0;
            lemma_value_grows(types, m, s, span, expression, s1, v);
        },
        MirInstructionView::RunCleanup { actions } => {},
    }
}

proof fn lemma_steps_grow(
    w: World,
    types: LocalTypes,
    m: Surroundings,
    s: Emission,
    steps: Seq<MirInstructionView>,
    i: int,
    t: Emission,
    depth: nat,
)
    requires
        sound(s),
        all_typed(types, s.locals),
        0 <= i,
        forall|j: int| 0 <= j < steps.len() ==> is_plain_step(w, types, #[trigger] steps[j], depth),
        all_performed(m, s, steps, i) == Ok::<Emission, crate::instructions::CodegenErrorView>(t),
        t.commands.len() <= usize::MAX,
    ensures
        grows(types, s, t, s.commands.len() as int),
    decreases steps.len() - i,
{
    if i < steps.len() {
        let s1 = performed(m, s, steps[i])->Ok_0;
        lemma_all_performed(m, s1, steps, i + 1);
        lemma_extends_is_prefix(s1, t);
        lemma_step_grows(w, types, m, s, steps[i], s1, depth);
        lemma_steps_grow(w, types, m, s1, steps, i + 1, t, depth);
        lemma_grows_twice(types, s, s1, t, s.commands.len() as int);
    }
}

proof fn lemma_end_grows(
    w: World,
    types: LocalTypes,
    m: Surroundings,
    s: Emission,
    end: MirTerminatorView,
    span: Span,
    t: Emission,
    depth: nat,
)
    requires
        sound(s),
        all_typed(types, s.locals),
        is_plain_end(w, types, end, m.return_type, depth),
        ended(m, s, end, span) == Ok::<Emission, crate::instructions::CodegenErrorView>(t),
        t.commands.len() <= usize::MAX,
        sound(t),
    ensures
        grows(types, s, t, s.commands.len() as int),
{
    lemma_ended(m, s, end, span);
    lemma_extends_is_prefix(s, t);
    match end {
        MirTerminatorView::Branch { condition, span: place, .. } => {
            let (s1, v) = emitted(m, told(m, s, place), condition)->Ok_0;
            lemma_value_grows(types, m, s, place, condition, s1, v);
            assert forall|i: int| s.commands.len() <= i < t.commands.len() implies (
            #[trigger] t.commands[i] matches CommandView::Position { block } ==> block
                >= s.commands.len()) by {
                if i < s1.commands.len() {
                    assert(t.commands[i] == s1.commands[i]);
                }
            }
        },
        MirTerminatorView::Return(Some(e)) => {
            let (s1, v) = emitted(m, told(m, s, e.span()), e)->Ok_0;
            lemma_emitted_grows(m, told(m, s, e.span()), e);
            lemma_packs_nothing(types, m, s1, v, e);
            lemma_value_grows(types, m, s, e.span(), e, s1, v);
            assert forall|i: int| s.commands.len() <= i < t.commands.len() implies (
            #[trigger] t.commands[i] matches CommandView::Position { block } ==> block
                >= s.commands.len()) by {
                if i < s1.commands.len() {
                    assert(t.commands[i] == s1.commands[i]);
                }
            }
        },
        _ => {
            lemma_told_grows(types, m, s, span);
        },
    }
}

/// Integers and truth values go in and out of functions as they are.
proof fn lemma_packs_nothing(
    types: LocalTypes,
    m: Surroundings,
    s: Emission,
    v: ValueView,
    e: TypedExprView,
)
    requires
        is_simple(types, e),
    ensures
        v.ty == LowType::Int(width_of(e.ty()) as u32) ==> crate::emission::packed(
            m,
            s,
            v,
            m.function,
            e.ty(),
        ) == Ok::<(Emission, ValueView), crate::instructions::CodegenErrorView>((s, v)),
        crate::emission::packed(m, s, v, m.function, e.ty()) matches Ok((t, _)) ==> s.commands.len()
            <= t.commands.len(),
{
    lemma_simple_is_scalar(types, e);
    lemma_low_scalar(m, e.ty());
}

proof fn lemma_grows_less(types: LocalTypes, s: Emission, t: Emission, first: int, less: int)
    requires
        grows(types, s, t, first),
        less <= first,
    ensures
        grows(types, s, t, less),
{
}

/// Whether the commands so far go on in the first `k` of `n` blocks and in
/// blocks behind all `n` only.
spec fn is_before(s: Emission, k: int, n: int) -> bool {
    forall|i: int|
        0 <= i < s.commands.len() ==> (#[trigger] s.commands[i] matches CommandView::Position {
            block,
        } ==> block < k || block >= n)
}

proof fn lemma_block_grows(
    w: World,
    types: LocalTypes,
    sets: Seq<Set<u32>>,
    m: Surroundings,
    s: Emission,
    f: MirFunctionView,
    k: int,
    t: Emission,
    depth: nat,
)
    requires
        is_plain_function(w, types, sets, f, depth),
        m.return_type == f.return_type,
        0 <= k < f.blocks.len(),
        sound(s),
        all_typed(types, s.locals),
        has_blocks(s, f.blocks.len() as int),
        f.blocks.len() <= s.commands.len(),
        block_emitted(m, s, f, k) == Ok::<Emission, crate::instructions::CodegenErrorView>(t),
        t.commands.len() <= usize::MAX,
    ensures
        grows(types, s, t, k),
        enter(s, k).commands.is_prefix_of(t.commands),
        has_blocks(t, f.blocks.len() as int),
        is_before(s, k + 1, f.blocks.len() as int) ==> is_before(
            t,
            k + 1,
            f.blocks.len() as int,
        ),
{
    let n = f.blocks.len() as int;
    let here = Surroundings { cleanup: mir::active(f, f.blocks[k].id), ..m };
    let s1 = enter(s, k);
    let steps = f.blocks[k].instructions;
    let s2 = all_performed(here, s1, steps, 0)->Ok_0;
    assert(is_plain_block(w, types, sets, f, k, depth));
    lemma_block_emitted(m, s, f, k);
    lemma_enter(s, k);
    lemma_all_performed(here, s1, steps, 0);
    lemma_ended(here, s2, f.blocks[k].terminator, f.span);
    lemma_extends_is_prefix(s, s1);
    lemma_extends_is_prefix(s1, s2);
    lemma_extends_is_prefix(s2, t);
    lemma_extends_is_prefix(s, t);
    assert(reaches(s, k));
    lemma_steps_grow(w, types, here, s1, steps, 0, s2, depth);
    lemma_end_grows(w, types, here, s2, f.blocks[k].terminator, f.span, t, depth);
    lemma_grows_less(types, s1, s2, s1.commands.len() as int, n);
    lemma_grows_less(types, s2, t, s2.commands.len() as int, n);
    lemma_grows_twice(types, s1, s2, t, n);
    lemma_grows_less(types, s1, t, n, k);
    assert(grows(types, s, s1, k));
    lemma_grows_twice(types, s, s1, t, k);
    assert forall|j: int| 0 <= j < n implies #[trigger] reaches(t, j) by {
        assert(reaches(s, j));
        assert(s.commands[j] == t.commands[j]);
    }
    if is_before(s, k + 1, n) {
        assert forall|i: int| 0 <= i < t.commands.len() implies (#[trigger] t.commands[i] matches
            CommandView::Position { block } ==> block < k + 1 || block >= n) by {
            if i < s.commands.len() {
                assert(t.commands[i] == s.commands[i]);
            } else if i == s.commands.len() {
                assert(t.commands[i] == s1.commands[i]);
            }
        }
    }
}

proof fn lemma_blocks_grow(
    w: World,
    types: LocalTypes,
    sets: Seq<Set<u32>>,
    m: Surroundings,
    s: Emission,
    f: MirFunctionView,
    k: int,
    t: Emission,
    depth: nat,
)
    requires
        is_plain_function(w, types, sets, f, depth),
        m.return_type == f.return_type,
        0 <= k,
        sound(s),
        all_typed(types, s.locals),
        has_blocks(s, f.blocks.len() as int),
        f.blocks.len() <= s.commands.len(),
        blocks_emitted(m, s, f, k) == Ok::<Emission, crate::instructions::CodegenErrorView>(t),
        t.commands.len() <= usize::MAX,
    ensures
        grows(types, s, t, k),
    decreases f.blocks.len() - k,
{
    if k < f.blocks.len() {
        let s1 = block_emitted(m, s, f, k)->Ok_0;
        lemma_blocks_emitted(m, s1, f, k + 1);
        lemma_extends_is_prefix(s1, t);
        lemma_block_grows(w, types, sets, m, s, f, k, s1, depth);
        lemma_blocks_grow(w, types, sets, m, s1, f, k + 1, t, depth);
        lemma_grows_less(types, s1, t, k + 1, k);
        lemma_grows_twice(types, s, s1, t, k);
    }
}

/// What there is before block `k`.
spec fn reached(m: Surroundings, s: Emission, f: MirFunctionView, k: int) -> Emission
    decreases k,
{
    if k <= 0 {
        s
    } else {
        block_emitted(m, reached(m, s, f, k - 1), f, k - 1)->Ok_0
    }
}

/// Whether the blocks of a function follow on `s` and make it `t`.
spec fn is_built(
    w: World,
    types: LocalTypes,
    sets: Seq<Set<u32>>,
    m: Surroundings,
    s: Emission,
    f: MirFunctionView,
    t: Emission,
    depth: nat,
) -> bool {
    &&& is_plain_function(w, types, sets, f, depth)
    &&& m.return_type == f.return_type
    &&& sound(s)
    &&& all_typed(types, s.locals)
    &&& has_blocks(s, f.blocks.len() as int)
    &&& f.blocks.len() <= s.commands.len()
    &&& is_before(s, 1, f.blocks.len() as int)
    &&& blocks_emitted(m, s, f, 0) == Ok::<Emission, crate::instructions::CodegenErrorView>(t)
    &&& t.commands.len() <= usize::MAX
    &&& are_distinct(t.locals)
}

proof fn lemma_reached(
    w: World,
    types: LocalTypes,
    sets: Seq<Set<u32>>,
    m: Surroundings,
    s: Emission,
    f: MirFunctionView,
    t: Emission,
    depth: nat,
    k: int,
)
    requires
        is_built(w, types, sets, m, s, f, t, depth),
        0 <= k <= f.blocks.len(),
    ensures
        ({
            let a = reached(m, s, f, k);
            let n = f.blocks.len() as int;
            &&& blocks_emitted(m, a, f, k) == Ok::<
                Emission,
                crate::instructions::CodegenErrorView,
            >(t)
            &&& sound(a)
            &&& all_typed(types, a.locals)
            &&& has_blocks(a, n)
            &&& n <= a.commands.len()
            &&& k >= 1 ==> is_before(a, k, n)
            &&& k == 0 ==> is_before(a, 1, n)
            &&& grows(types, a, t, k)
        }),
    decreases k,
{
    if k > 0 {
        let n = f.blocks.len() as int;
        let a = reached(m, s, f, k - 1);
        let b = reached(m, s, f, k);
        lemma_reached(w, types, sets, m, s, f, t, depth, k - 1);
        lemma_blocks_emitted(m, b, f, k);
        lemma_extends_is_prefix(b, t);
        assert(is_before(a, k, n)) by {
            if k == 1 {
            } else {
                assert(is_before(a, k - 1, n));
            }
        }
        lemma_block_grows(w, types, sets, m, a, f, k - 1, b, depth);
        lemma_blocks_grow(w, types, sets, m, b, f, k, t, depth);
    } else {
        lemma_blocks_grow(w, types, sets, m, s, f, 0, t, depth);
    }
}

/// Where block `k` starts.
proof fn lemma_block_starts(
    w: World,
    types: LocalTypes,
    sets: Seq<Set<u32>>,
    m: Surroundings,
    s: Emission,
    f: MirFunctionView,
    t: Emission,
    depth: nat,
    k: int,
)
    requires
        is_built(w, types, sets, m, s, f, t, depth),
        1 <= k < f.blocks.len(),
    ensures
        start_of(t.commands, k, 0) == reached(m, s, f, k).commands.len() + 1,
{
    let a = reached(m, s, f, k);
    let n = f.blocks.len() as int;
    let b = block_emitted(m, a, f, k)->Ok_0;
    lemma_reached(w, types, sets, m, s, f, t, depth, k);
    lemma_reached(w, types, sets, m, s, f, t, depth, k + 1);
    assert(b == reached(m, s, f, k + 1));
    lemma_block_grows(w, types, sets, m, a, f, k, b, depth);
    lemma_starts_behind(a, b, t, k, n);
}

proof fn lemma_starts_behind(a: Emission, b: Emission, t: Emission, k: int, n: int)
    requires
        is_before(a, k, n),
        enter(a, k).commands.is_prefix_of(b.commands),
        b.commands.is_prefix_of(t.commands),
        a.commands.is_prefix_of(t.commands),
        0 <= k < n <= u32::MAX,
    ensures
        start_of(t.commands, k, 0) == a.commands.len() + 1,
{
    let place = a.commands.len() as int;
    assert(enter(a, k).commands[place] == b.commands[place]);
    assert(b.commands[place] == t.commands[place]);
    assert forall|j: int| 0 <= j < place implies !(#[trigger] t.commands[j] matches
        CommandView::Position { block } && block == k) by {
        assert(t.commands[j] == a.commands[j]);
    }
    lemma_start(t.commands, k, 0, place);
}

// ---------------------------------------------------------------------------
// Runs
// ---------------------------------------------------------------------------

proof fn lemma_local_at(locals: LocalSlots, n: int, i: int)
    requires
        are_distinct(locals),
        0 <= i < n <= locals.len(),
    ensures
        local_of(locals, n, locals[i].0) == Some((locals[i].1, locals[i].2)),
    decreases n,
{
    if i < n - 1 {
        assert(locals[i].0 != locals[n - 1].0);
        lemma_local_at(locals, n - 1, i);
    }
}

/// A local that is there stays where it is.
proof fn lemma_found_later(a: LocalSlots, b: LocalSlots, id: LocalId)
    requires
        are_distinct(b),
        a.is_prefix_of(b),
    ensures
        local_of(a, a.len() as int, id) matches Some(found) ==> local_of(b, b.len() as int, id)
            == Some(found),
{
    lemma_local_of(a, a.len() as int, id);
    if let Some((pointer, low)) = local_of(a, a.len() as int, id) {
        let i = choose|i: int| 0 <= i < a.len() && #[trigger] a[i] == (id, pointer, low);
        assert(a[i] == b[i]);
        lemma_local_at(b, b.len() as int, i);
    }
}

proof fn lemma_hold_earlier(
    types: LocalTypes,
    env: Locals,
    a: LocalSlots,
    b: LocalSlots,
    st: State,
)
    requires
        are_distinct(b),
        a.is_prefix_of(b),
        locals_hold(types, env, b, st),
    ensures
        locals_hold(types, env, a, st),
{
    assert forall|id: LocalId|
        types.dom().contains(id.0) && (#[trigger] local_of(a, a.len() as int, id) matches Some((
            pointer,
            low,
        )) && env.dom().contains(id.0)) implies is_stored(types, env, a, st, id) by {
        lemma_found_later(a, b, id);
        assert(is_stored(types, env, b, st, id));
    }
}

/// A place that is told changes nothing.
proof fn lemma_told_runs(
    types: LocalTypes,
    m: Surroundings,
    s: Emission,
    span: Span,
    cs: Seq<CommandView>,
    st: State,
) -> (r: (nat, State))
    requires
        stands(cs, s, st),
        sound(s),
        told(m, s, span).commands.is_prefix_of(cs),
    ensures
        run(cs, st, r.0) == Next::Go(r.1),
        stands(cs, told(m, s, span), r.1),
        keeps(st, r.1, st.pc),
        st.pc <= r.1.pc,
        sound(told(m, s, span)),
{
    let t = told(m, s, span);
    lemma_told(m, s, span);
    lemma_sound_is_ready(t);
    reveal_with_fuel(run, 2);
    if t == s {
        (0, st)
    } else {
        let (source, _) = m.debug->Some_0;
        let c = CommandView::Locate {
            line: crate::emission::source_line(source, span.start as int),
            column: crate::emission::source_column(source, span.start as int),
        };
        assert(t == issue(s, c));
        lemma_at(cs, s, c, st);
        (1, gone_on(st))
    }
}

/// The value of an expression after its place is told.
proof fn lemma_value_runs(
    w: World,
    types: LocalTypes,
    m: Surroundings,
    s: Emission,
    span: Span,
    e: TypedExprView,
    s1: Emission,
    v: ValueView,
    locals: LocalSlots,
    cs: Seq<CommandView>,
    st: State,
    heap: Heap,
    env: Locals,
    depth: nat,
) -> (r: (nat, State))
    requires
        sound(s),
        all_typed(types, s.locals),
        is_plain(w, types, e, depth),
        emitted(m, told(m, s, span), e) == Ok::<
            (Emission, ValueView),
            crate::instructions::CodegenErrorView,
        >((s1, v)),
        stands(cs, s, st),
        s1.commands.is_prefix_of(cs),
        are_distinct(locals),
        s.locals.is_prefix_of(locals),
        stays_out(locals, s.commands.len() as int, s1.commands.len() as int),
        locals_hold(types, env, locals, st),
        evaluated(w, heap, env, e, depth) is Ok,
    ensures
        run(cs, st, r.0) == Next::Go(r.1),
        stands(cs, s1, r.1),
        keeps(st, r.1, st.pc),
        locals_hold(types, env, locals, r.1),
        evaluated(w, heap, env, e, depth)->Ok_0.1 == heap,
        crate::faithfulness::holds(
            evaluated(w, heap, env, e, depth)->Ok_0.0,
            e.ty(),
            operand_value(r.1, v.operand),
        ),
        st.pc <= r.1.pc,
{
    let s0 = told(m, s, span);
    lemma_value_grows(types, m, s, span, e, s1, v);
    lemma_prefixes(s0.commands, s1.commands, cs);
    let (a, st0) = lemma_told_runs(types, m, s, span, cs, st);
    assert(stays_out(locals, st.pc, st0.pc));
    lemma_locals_stay(types, env, locals, st, st0);
    lemma_told_grows(types, m, s, span);
    lemma_hold_earlier(types, env, s0.locals, locals, st0);
    lemma_all_typed(types, s0.locals);
    assert(divides_safely(w, heap, env, e, depth));
    let (b, end) = lemma_expressions_run_as_they_evaluate(
        m,
        types,
        s0,
        e,
        s1,
        v,
        w,
        heap,
        env,
        depth,
        cs,
        st0,
    );
    lemma_steps_add_up(cs, st, a, b);
    lemma_locals_stay(types, env, locals, st, end);
    (a + b, end)
}

/// No error leaves a simple expression.
proof fn lemma_simple_stops(
    w: World,
    types: LocalTypes,
    heap: Heap,
    env: Locals,
    e: TypedExprView,
    depth: nat,
)
    requires
        is_simple(types, e),
    ensures
        evaluated(w, heap, env, e, depth) matches Err(stop) ==> stop is Failed,
        evaluated(w, heap, env, e, depth) matches Ok((_, after)) ==> after == heap,
    decreases e,
{
    match e {
        TypedExprView::Unary { operand, .. } => {
            lemma_simple_stops(w, types, heap, env, *operand, depth);
        },
        TypedExprView::Binary { left, right, .. } => {
            lemma_simple_stops(w, types, heap, env, *left, depth);
            lemma_simple_stops(w, types, heap, env, *right, depth);
        },
        _ => {},
    }
}

/// The locals behind a step that runs.
spec fn locals_after(
    w: World,
    heap: Heap,
    env: Locals,
    step: MirInstructionView,
    depth: nat,
) -> Locals {
    match step {
        MirInstructionView::Declare { id, value, .. } => env.insert(
            id.0,
            evaluated(w, heap, env, value, depth)->Ok_0.0,
        ),
        MirInstructionView::Store { target: TypedPlaceView::Local { id, .. }, value, .. } =>
            env.insert(id.0, evaluated(w, heap, env, value, depth)->Ok_0.0),
        _ => env,
    }
}

/// What a step has to evaluate.
spec fn step_value(step: MirInstructionView) -> Option<TypedExprView> {
    match step {
        MirInstructionView::Declare { value, .. } => Some(value),
        MirInstructionView::Store { value, .. } => Some(value),
        MirInstructionView::Expr { expression, .. } => Some(expression),
        _ => None,
    }
}

/// Steps of plain values run one after the other.
proof fn lemma_step_of(
    w: World,
    types: LocalTypes,
    heap: Heap,
    env: Locals,
    cleanup: Seq<mir::MirCleanupView>,
    steps: Seq<MirInstructionView>,
    i: int,
    depth: nat,
)
    requires
        0 <= i < steps.len(),
        is_plain_step(w, types, steps[i], depth),
    ensures
        steps_run(w, heap, env, cleanup, steps, i, depth) matches Ok(found) ==> {
            &&& step_value(steps[i]) matches Some(e) ==> evaluated(w, heap, env, e, depth) is Ok
            &&& steps_run(
                w,
                heap,
                locals_after(w, heap, env, steps[i], depth),
                cleanup,
                steps,
                i + 1,
                depth,
            ) == Ok::<Stepped, Seq<char>>(found)
        },
{
    match steps[i] {
        MirInstructionView::RunCleanup { actions } => {
            assert(execution::cleanup_run(w, heap, env, actions, 0, depth) == Ok::<Heap, Seq<char>>(
                heap,
            ));
        },
        MirInstructionView::Store { target, value, .. } => {
            lemma_simple_stops(w, types, heap, env, value, depth);
            match evaluated(w, heap, env, value, depth) {
                Err(stop) => {
                    assert(execution::stopped(w, stop, env, cleanup, depth) is Err);
                },
                Ok((found, after)) => {
                    assert(execution::stored(w, after, env, target, found, depth) == Ok::<
                        (Heap, Locals),
                        execution::StopView,
                    >((heap, locals_after(w, heap, env, steps[i], depth))));
                },
            }
        },
        MirInstructionView::Declare { value, .. } => {
            lemma_simple_stops(w, types, heap, env, value, depth);
            if let Err(stop) = evaluated(w, heap, env, value, depth) {
                assert(execution::stopped(w, stop, env, cleanup, depth) is Err);
            }
        },
        MirInstructionView::Expr { expression, .. } => {
            lemma_simple_stops(w, types, heap, env, expression, depth);
            if let Err(stop) = evaluated(w, heap, env, expression, depth) {
                assert(execution::stopped(w, stop, env, cleanup, depth) is Err);
            }
        },
    }
}

/// Room that is made, and filled.
proof fn lemma_room_is_made(cs: Seq<CommandView>, a: State, value: OperandView) -> (c: State)
    requires
        0 <= a.pc,
        a.pc + 1 < cs.len() <= usize::MAX,
        cs[a.pc] is Alloca,
        cs[a.pc + 1] == (CommandView::Store {
            pointer: OperandView::Register(a.pc as usize),
            value,
        }),
        crate::faithfulness::is_below(value, a.pc),
    ensures
        run(cs, a, 2) == Next::Go(c),
        c == (State {
            rooms: a.rooms.insert(a.pc, operand_value(a, value)),
            results: a.results.insert(a.pc, Val::Address { room: a.pc, path: Seq::empty() }),
            pc: a.pc + 2,
            ..a
        }),
{
    let p = a.pc;
    let given = operand_value(a, value);
    let b = State {
        rooms: a.rooms.insert(p, Val::Other),
        results: a.results.insert(p, Val::Address { room: p, path: Seq::empty() }),
        pc: p + 1,
        ..a
    };
    assert(crate::machine::step(cs, a) == Next::Go(b));
    assert(operand_value(b, value) == given);
    let c = State { rooms: b.rooms.insert(p, given), pc: p + 2, ..b };
    assert(crate::machine::step(cs, b) == Next::Go(c));
    assert(c.rooms =~= a.rooms.insert(p, given));
    assert(run(cs, c, 0) == Next::Go(c));
    assert(run(cs, b, 1) == Next::Go(c));
    assert(run(cs, a, 2) == Next::Go(c));
    c
}

/// Locals hold what they held, and a new one its first value.
proof fn lemma_held_with_one_more(
    types: LocalTypes,
    env: Locals,
    s: Emission,
    t: Emission,
    end: Emission,
    a: State,
    c: State,
    id: LocalId,
    low: LowType,
    x: interpreter::ValueView,
)
    requires
        sound(s),
        grows(types, t, end, 0),
        are_distinct(end.locals),
        t.locals == s.locals.push((id, OperandView::Register(a.pc as usize), low)),
        s.commands.len() <= a.pc < t.commands.len() <= usize::MAX,
        low == LowType::Int(width_of(types[id.0]) as u32),
        locals_hold(types, env, end.locals, a),
        c.results == a.results.insert(a.pc, Val::Address { room: a.pc, path: Seq::empty() }),
        exists|given: Val| #[trigger]
            c.rooms == a.rooms.insert(a.pc, given) && crate::faithfulness::holds(
                x,
                types[id.0],
                given,
            ),
    ensures
        locals_hold(types, env.insert(id.0, x), end.locals, c),
{
    let locals = end.locals;
    let after = env.insert(id.0, x);
    let mine = s.locals.len() as int;
    let p = a.pc;
    lemma_sound_locals(s, p + 1);
    assert(locals[mine] == t.locals[mine]);
    assert forall|other: LocalId|
        types.dom().contains(other.0) && (#[trigger] local_of(
            locals,
            locals.len() as int,
            other,
        ) matches Some((pointer, low)) && after.dom().contains(other.0)) implies is_stored(
        types,
        after,
        locals,
        c,
        other,
    ) by {
        if other == id {
            lemma_local_at(locals, locals.len() as int, mine);
        } else {
            assert(other.0 != id.0);
            assert(env.dom().contains(other.0));
            assert(is_stored(types, env, locals, a, other));
            lemma_local_of(locals, locals.len() as int, other);
            let (pointer, kind) = local_of(locals, locals.len() as int, other)->Some_0;
            let i = choose|i: int|
                0 <= i < locals.len() && #[trigger] locals[i] == (other, pointer, kind);
            assert(i != mine);
            if i < mine {
                assert(locals[i] == t.locals[i]);
                assert(locals[i] == s.locals[i]);
            } else {
                assert(is_new(locals[i], t.commands.len() as int));
            }
        }
    }
}

/// A declaration.
proof fn lemma_declare_runs(
    w: World,
    types: LocalTypes,
    m: Surroundings,
    s: Emission,
    step: MirInstructionView,
    t: Emission,
    end: Emission,
    cs: Seq<CommandView>,
    st: State,
    heap: Heap,
    env: Locals,
    depth: nat,
) -> (r: (nat, State))
    requires
        step is Declare,
        sound(s),
        all_typed(types, s.locals),
        is_plain_step(w, types, step, depth),
        performed(m, s, step) == Ok::<Emission, crate::instructions::CodegenErrorView>(t),
        grows(types, t, end, 0),
        cs == end.commands,
        stands(cs, s, st),
        are_distinct(end.locals),
        locals_hold(types, env, end.locals, st),
        step_value(step) matches Some(e) ==> evaluated(w, heap, env, e, depth) is Ok,
        step matches MirInstructionView::Store { target: TypedPlaceView::Local { id, .. }, .. }
            ==> env.dom().contains(id.0),
    ensures
        run(cs, st, r.0) == Next::Go(r.1),
        stands(cs, t, r.1),
        r.1.arguments == st.arguments,
        locals_hold(types, locals_after(w, heap, env, step, depth), end.locals, r.1),
{
    let locals = end.locals;
    lemma_performed(m, s, step);
    lemma_extends_is_prefix(s, t);
    lemma_step_grows(w, types, m, s, step, t, depth);
    lemma_sound_locals(s, cs.len() as int);
    lemma_sound_is_ready(t);
    assert(s.locals.is_prefix_of(locals)) by {
        assert forall|i: int| 0 <= i < s.locals.len() implies s.locals[i] == locals[i] by {
            assert(s.locals[i] == t.locals[i]);
            assert(t.locals[i] == locals[i]);
        }
    }
    match step {
        MirInstructionView::Declare { id, name, ty, value, span, .. } => {
            let (s1, v) = emitted(m, told(m, s, span), value)->Ok_0;
            let low = m.low(ty)->Ok_0;
            reveal(declared);
            let p = s1.commands.len() as int;
            lemma_value_grows(types, m, s, span, value, s1, v);
            assert(s1.commands.is_prefix_of(t.commands));
            lemma_prefixes(s1.commands, t.commands, cs);
            let mine = s.locals.len() as int;
            assert(t.locals[mine] == (id, OperandView::Register(p as usize), low));
            assert(locals[mine] == t.locals[mine]);
            assert(stays_out(locals, s.commands.len() as int, p)) by {
                assert forall|i: int| 0 <= i < locals.len() implies ((#[trigger] locals[i]).1
                    matches OperandView::Register(r) ==> r < s.commands.len() || r >= p) by {
                    if i < mine {
                        assert(locals[i] == s.locals[i]);
                    }
                }
            }
            let (n, a) = lemma_value_runs(
                w,
                types,
                m,
                s,
                span,
                value,
                s1,
                v,
                locals,
                cs,
                st,
                heap,
                env,
                depth,
            );
            let x = evaluated(w, heap, env, value, depth)->Ok_0.0;
            assert(t.commands[p] == cs[p] && t.commands[p + 1] == cs[p + 1]);
            lemma_emitted_grows(m, told(m, s, span), value);
            lemma_told(m, s, span);
            let given = operand_value(a, v.operand);
            let c = lemma_room_is_made(cs, a, v.operand);
            lemma_steps_add_up(cs, st, n, 2);
            let after = env.insert(id.0, x);
            lemma_held_with_one_more(types, env, s, t, end, a, c, id, low, x);
            (n + 2, c)
        },
        _ => (0, st),
    }
}

/// A change of a local.
proof fn lemma_store_runs(
    w: World,
    types: LocalTypes,
    m: Surroundings,
    s: Emission,
    step: MirInstructionView,
    t: Emission,
    end: Emission,
    cs: Seq<CommandView>,
    st: State,
    heap: Heap,
    env: Locals,
    depth: nat,
) -> (r: (nat, State))
    requires
        step is Store,
        sound(s),
        all_typed(types, s.locals),
        is_plain_step(w, types, step, depth),
        performed(m, s, step) == Ok::<Emission, crate::instructions::CodegenErrorView>(t),
        grows(types, t, end, 0),
        cs == end.commands,
        stands(cs, s, st),
        are_distinct(end.locals),
        locals_hold(types, env, end.locals, st),
        step_value(step) matches Some(e) ==> evaluated(w, heap, env, e, depth) is Ok,
        step matches MirInstructionView::Store { target: TypedPlaceView::Local { id, .. }, .. }
            ==> env.dom().contains(id.0),
    ensures
        run(cs, st, r.0) == Next::Go(r.1),
        stands(cs, t, r.1),
        r.1.arguments == st.arguments,
        locals_hold(types, locals_after(w, heap, env, step, depth), end.locals, r.1),
{
    let locals = end.locals;
    lemma_performed(m, s, step);
    lemma_extends_is_prefix(s, t);
    lemma_step_grows(w, types, m, s, step, t, depth);
    lemma_sound_locals(s, cs.len() as int);
    lemma_sound_is_ready(t);
    assert(s.locals.is_prefix_of(locals)) by {
        assert forall|i: int| 0 <= i < s.locals.len() implies s.locals[i] == locals[i] by {
            assert(s.locals[i] == t.locals[i]);
            assert(t.locals[i] == locals[i]);
        }
    }
    match step {
        MirInstructionView::Store { target, value, ty, span } => {
            let id = target->Local_id;
            let (s2, v) = emitted(m, told(m, s, span), value)->Ok_0;
            lemma_told_grows(types, m, s, span);
            lemma_value_grows(types, m, s, span, value, s2, v);
            let p = s2.commands.len() as int;
            let (pointer, low) = local_of(s.locals, s.locals.len() as int, id)->Some_0;
            assert(t == issue(s2, CommandView::Store { pointer, value: v.operand }));
            lemma_prefixes(s2.commands, t.commands, cs);
            lemma_out(types, s, t, end, p);
            let (n, a) = lemma_value_runs(
                w,
                types,
                m,
                s,
                span,
                value,
                s2,
                v,
                locals,
                cs,
                st,
                heap,
                env,
                depth,
            );
            let x = evaluated(w, heap, env, value, depth)->Ok_0.0;
            lemma_found_later(s.locals, locals, id);
            assert(is_stored(types, env, locals, a, id));
            let r = pointer->Register_0 as int;
            assert(t.commands[p] == cs[p]);
            let given = operand_value(a, v.operand);
            let c = State { rooms: a.rooms.insert(r, given), pc: p + 1, ..a };
            assert(crate::machine::step(cs, a) == Next::Go(c));
            assert(run(cs, c, 0) == Next::Go(c));
            assert(run(cs, a, 1) == Next::Go(c));
            lemma_steps_add_up(cs, st, n, 1);
            let after = env.insert(id.0, x);
            assert forall|other: LocalId|
                types.dom().contains(other.0) && (#[trigger] local_of(
                    locals,
                    locals.len() as int,
                    other,
                ) matches Some((pointer, low)) && after.dom().contains(other.0)) implies is_stored(
                types,
                after,
                locals,
                c,
                other,
            ) by {
                if other != id {
                    assert(other.0 != id.0);
                    assert(env.dom().contains(other.0));
                    assert(is_stored(types, env, locals, a, other));
                    lemma_own_rooms(types, locals, id, other);
                }
            }
            (n + 1, c)
        },
        _ => (0, st),
    }
}

/// A step whose value is there.
proof fn lemma_step_runs(
    w: World,
    types: LocalTypes,
    m: Surroundings,
    s: Emission,
    step: MirInstructionView,
    t: Emission,
    end: Emission,
    cs: Seq<CommandView>,
    st: State,
    heap: Heap,
    env: Locals,
    depth: nat,
) -> (r: (nat, State))
    requires
        sound(s),
        all_typed(types, s.locals),
        is_plain_step(w, types, step, depth),
        performed(m, s, step) == Ok::<Emission, crate::instructions::CodegenErrorView>(t),
        grows(types, t, end, 0),
        cs == end.commands,
        stands(cs, s, st),
        are_distinct(end.locals),
        locals_hold(types, env, end.locals, st),
        step_value(step) matches Some(e) ==> evaluated(w, heap, env, e, depth) is Ok,
        step matches MirInstructionView::Store { target: TypedPlaceView::Local { id, .. }, .. }
            ==> env.dom().contains(id.0),
    ensures
        run(cs, st, r.0) == Next::Go(r.1),
        stands(cs, t, r.1),
        r.1.arguments == st.arguments,
        locals_hold(types, locals_after(w, heap, env, step, depth), end.locals, r.1),
{
    let locals = end.locals;
    lemma_performed(m, s, step);
    lemma_extends_is_prefix(s, t);
    lemma_step_grows(w, types, m, s, step, t, depth);
    lemma_sound_locals(s, cs.len() as int);
    lemma_sound_is_ready(t);
    assert(s.locals.is_prefix_of(locals)) by {
        assert forall|i: int| 0 <= i < s.locals.len() implies s.locals[i] == locals[i] by {
            assert(s.locals[i] == t.locals[i]);
            assert(t.locals[i] == locals[i]);
        }
    }
    match step {
        MirInstructionView::Declare { .. } => {
            lemma_declare_runs(w, types, m, s, step, t, end, cs, st, heap, env, depth)
        },
        MirInstructionView::Store { .. } => {
            lemma_store_runs(w, types, m, s, step, t, end, cs, st, heap, env, depth)
        },
        MirInstructionView::Expr { expression, span } => {
            let (s1, v) = emitted(m, told(m, s, span), expression)->Ok_0;
            lemma_value_grows(types, m, s, span, expression, s1, v);
            lemma_out(types, s, t, end, s1.commands.len() as int);
            lemma_value_runs(
                w,
                types,
                m,
                s,
                span,
                expression,
                s1,
                v,
                locals,
                cs,
                st,
                heap,
                env,
                depth,
            )
        },
        MirInstructionView::RunCleanup { actions } => { (0, st) },
    }
}

/// Locals are results of commands before `s` or behind `t` where the commands
/// between declare none.
proof fn lemma_out(types: LocalTypes, s: Emission, t: Emission, end: Emission, p: int)
    requires
        sound(s),
        t.locals == s.locals,
        grows(types, t, end, 0),
        p <= t.commands.len(),
    ensures
        stays_out(end.locals, s.commands.len() as int, p),
{
    lemma_sound_locals(s, p);
    assert forall|i: int| 0 <= i < end.locals.len() implies ((#[trigger] end.locals[i]).1 matches
        OperandView::Register(r) ==> r < s.commands.len() || r >= p) by {
        if i < s.locals.len() {
            assert(end.locals[i] == t.locals[i]);
        }
    }
}

proof fn lemma_own_rooms(types: LocalTypes, locals: LocalSlots, a: LocalId, b: LocalId)
    requires
        all_typed(types, locals),
        a != b,
    ensures
        local_of(locals, locals.len() as int, a) matches Some(x) ==> (local_of(
            locals,
            locals.len() as int,
            b,
        ) matches Some(y) ==> x.0 != y.0),
{
    let n = locals.len() as int;
    lemma_local_of(locals, n, a);
    lemma_local_of(locals, n, b);
    if let (Some((p, x)), Some((q, y))) = (local_of(locals, n, a), local_of(locals, n, b)) {
        let i = choose|i: int| 0 <= i < n && #[trigger] locals[i] == (a, p, x);
        let j = choose|j: int| 0 <= j < n && #[trigger] locals[j] == (b, q, y);
        assert(i < j || j < i);
        if i < j {
            assert(locals[i].1 != locals[j].1);
        } else {
            assert(locals[j].1 != locals[i].1);
        }
    }
}

/// The steps of a block from `i` on.
proof fn lemma_steps_run(
    w: World,
    types: LocalTypes,
    m: Surroundings,
    s: Emission,
    steps: Seq<MirInstructionView>,
    i: int,
    t: Emission,
    end: Emission,
    cs: Seq<CommandView>,
    st: State,
    heap: Heap,
    env: Locals,
    before: Set<u32>,
    cleanup: Seq<mir::MirCleanupView>,
    depth: nat,
) -> (r: (nat, State))
    requires
        sound(s),
        all_typed(types, s.locals),
        0 <= i <= steps.len(),
        forall|j: int| 0 <= j < steps.len() ==> is_plain_step(w, types, #[trigger] steps[j], depth),
        changes_set(steps, before),
        all_performed(m, s, steps, i) == Ok::<Emission, crate::instructions::CodegenErrorView>(t),
        grows(types, t, end, 0),
        cs == end.commands,
        stands(cs, s, st),
        are_distinct(end.locals),
        locals_hold(types, env, end.locals, st),
        set_by(steps, i, before).subset_of(env.dom()),
        steps_run(w, heap, env, cleanup, steps, i, depth) is Ok,
    ensures
        run(cs, st, r.0) == Next::Go(r.1),
        stands(cs, t, r.1),
        steps_run(w, heap, env, cleanup, steps, i, depth) matches Ok(Stepped::Done(after, locals))
            && after == heap && locals_hold(types, locals, end.locals, r.1) && set_by(
            steps,
            steps.len() as int,
            before,
        ).subset_of(locals.dom()),
    decreases steps.len() - i,
{
    if i < steps.len() {
        let s1 = performed(m, s, steps[i])->Ok_0;
        lemma_all_performed(m, s1, steps, i + 1);
        lemma_extends_is_prefix(s1, t);
        lemma_step_grows(w, types, m, s, steps[i], s1, depth);
        lemma_steps_grow(w, types, m, s1, steps, i + 1, t, depth);
        lemma_grows_less(types, s1, t, s1.commands.len() as int, 0);
        lemma_grows_twice(types, s1, t, end, 0);
        lemma_step_of(w, types, heap, env, cleanup, steps, i, depth);
        let (a, st1) = lemma_step_runs(
            w,
            types,
            m,
            s,
            steps[i],
            s1,
            end,
            cs,
            st,
            heap,
            env,
            depth,
        );
        let env1 = locals_after(w, heap, env, steps[i], depth);
        assert(set_by(steps, i + 1, before).subset_of(env1.dom()));
        let (b, st2) = lemma_steps_run(
            w,
            types,
            m,
            s1,
            steps,
            i + 1,
            t,
            end,
            cs,
            st1,
            heap,
            env1,
            before,
            cleanup,
            depth,
        );
        lemma_steps_add_up(cs, st, a, b);
        (a + b, st2)
    } else {
        (0, st)
    }
}

/// Where a run stands does not matter to what locals hold.
proof fn lemma_held_elsewhere(
    types: LocalTypes,
    env: Locals,
    locals: LocalSlots,
    a: State,
    b: State,
)
    requires
        locals_hold(types, env, locals, a),
        b.results == a.results,
        b.rooms == a.rooms,
    ensures
        locals_hold(types, env, locals, b),
{
    assert forall|id: LocalId|
        types.dom().contains(id.0) && (#[trigger] local_of(locals, locals.len() as int, id) matches
            Some((pointer, low)) && env.dom().contains(id.0)) implies is_stored(
        types,
        env,
        locals,
        b,
        id,
    ) by {
        assert(is_stored(types, env, locals, a, id));
    }
}

/// At the end of a block with a branch the code goes to the block for true
/// exactly where the condition is true, and else to the block for false.
pub proof fn lemma_branches_go_where_conditions_say(
    w: World,
    types: LocalTypes,
    m: Surroundings,
    s: Emission,
    end: MirTerminatorView,
    span: Span,
    t: Emission,
    locals: LocalSlots,
    cs: Seq<CommandView>,
    st: State,
    heap: Heap,
    env: Locals,
    depth: nat,
) -> (r: (nat, State))
    requires
        sound(s),
        all_typed(types, s.locals),
        end is Branch,
        is_plain_end(w, types, end, m.return_type, depth),
        ended(m, s, end, span) == Ok::<Emission, crate::instructions::CodegenErrorView>(t),
        t.commands.is_prefix_of(cs),
        stands(cs, s, st),
        are_distinct(locals),
        s.locals.is_prefix_of(locals),
        stays_out(locals, s.commands.len() as int, t.commands.len() as int),
        locals_hold(types, env, locals, st),
        evaluated(w, heap, env, end->Branch_condition, depth) is Ok,
    ensures
        run(cs, st, r.0) == Next::Go(r.1),
        locals_hold(types, env, locals, r.1),
        r.1.pc == start_of(cs, r.1.block, 0),
        evaluated(w, heap, env, end->Branch_condition, depth) matches Ok((
            interpreter::ValueView::Bool(b),
            after,
        )) && after == heap && r.1.block == if b {
            end->Branch_then_block.0 as int
        } else {
            end->Branch_else_block.0 as int
        },
{
    match end {
        MirTerminatorView::Branch { condition, then_block, else_block, span: place } => {
            let (s1, v) = emitted(m, told(m, s, place), condition)->Ok_0;
            assert(s1.commands.len() <= t.commands.len());
            lemma_value_grows(types, m, s, place, condition, s1, v);
            assert(s1.commands.is_prefix_of(t.commands));
            lemma_prefixes(s1.commands, t.commands, cs);
            let (n, a) = lemma_value_runs(
                w,
                types,
                m,
                s,
                place,
                condition,
                s1,
                v,
                locals,
                cs,
                st,
                heap,
                env,
                depth,
            );
            let b = evaluated(w, heap, env, condition, depth)->Ok_0.0->Bool_0;
            let c = CommandView::Branch {
                condition: v.operand,
                yes: then_block.0 as usize,
                no: else_block.0 as usize,
            };
            assert(t == issue(s1, c));
            lemma_at(cs, s1, c, a);
            let goal = if b {
                then_block.0 as int
            } else {
                else_block.0 as int
            };
            let last = gone_to(cs, a, goal);
            assert(step(cs, a) == Next::Go(last));
            assert(run(cs, last, 0) == Next::Go(last));
            assert(run(cs, a, 1) == Next::Go(last));
            lemma_steps_add_up(cs, st, n, 1);
            lemma_held_elsewhere(types, env, locals, a, last);
            (n + 1, last)
        },
        _ => (0, st),
    }
}

/// Whether a run gives back a value of a type.
pub open spec fn gives(v: interpreter::ValueView, ty: ResolvedType, next: Next) -> bool {
    if ty == ResolvedType::Unit {
        next == Next::Gave(None) && v == interpreter::ValueView::Unit
    } else {
        next matches Next::Gave(Some(x)) && crate::faithfulness::holds(v, ty, x)
    }
}

/// The end of a function.
proof fn lemma_return_runs(
    w: World,
    types: LocalTypes,
    m: Surroundings,
    s: Emission,
    value: Option<TypedExprView>,
    span: Span,
    t: Emission,
    locals: LocalSlots,
    cs: Seq<CommandView>,
    st: State,
    heap: Heap,
    env: Locals,
    depth: nat,
) -> (n: nat)
    requires
        sound(s),
        all_typed(types, s.locals),
        is_plain_end(w, types, MirTerminatorView::Return(value), m.return_type, depth),
        ended(m, s, MirTerminatorView::Return(value), span) == Ok::<
            Emission,
            crate::instructions::CodegenErrorView,
        >(t),
        t.commands.is_prefix_of(cs),
        stands(cs, s, st),
        are_distinct(locals),
        s.locals.is_prefix_of(locals),
        stays_out(locals, s.commands.len() as int, t.commands.len() as int),
        locals_hold(types, env, locals, st),
        value matches Some(e) ==> evaluated(w, heap, env, e, depth) is Ok,
    ensures
        value matches Some(e) ==> gives(
            evaluated(w, heap, env, e, depth)->Ok_0.0,
            m.return_type,
            run(cs, st, n),
        ),
        value is None ==> gives(interpreter::ValueView::Unit, m.return_type, run(cs, st, n)),
{
    match value {
        Some(e) => {
            let (s1, v) = emitted(m, told(m, s, e.span()), e)->Ok_0;
            lemma_packs_nothing(types, m, s1, v, e);
            lemma_value_grows(types, m, s, e.span(), e, s1, v);
            let c = CommandView::Return { value: Some(v.operand) };
            assert(t == issue(s1, c));
            assert(s1.commands.is_prefix_of(t.commands));
            lemma_prefixes(s1.commands, t.commands, cs);
            let (n, a) = lemma_value_runs(
                w,
                types,
                m,
                s,
                e.span(),
                e,
                s1,
                v,
                locals,
                cs,
                st,
                heap,
                env,
                depth,
            );
            lemma_at(cs, s1, c, a);
            let given = Next::Gave(Some(operand_value(a, v.operand)));
            assert(step(cs, a) == given);
            assert(run(cs, a, 1) == given);
            lemma_steps_add_up(cs, st, n, 1);
            lemma_simple_is_scalar(types, e);
            n + 1
        },
        None => {
            let s1 = told(m, s, span);
            let c = CommandView::Return { value: None };
            assert(t == issue(s1, c));
            assert(s1.commands.is_prefix_of(t.commands));
            lemma_prefixes(s1.commands, t.commands, cs);
            let (n, a) = lemma_told_runs(types, m, s, span, cs, st);
            lemma_at(cs, s1, c, a);
            assert(step(cs, a) == Next::Gave(None));
            assert(run(cs, a, 1) == Next::Gave(None));
            lemma_steps_add_up(cs, st, n, 1);
            n + 1
        },
    }
}

proof fn lemma_block_by_id(f: MirFunctionView, i: int, k: int)
    requires
        forall|j: int| 0 <= j < f.blocks.len() ==> (#[trigger] f.blocks[j]).id.0 == j,
        0 <= i <= k < f.blocks.len(),
    ensures
        execution::block_by_id(f.blocks, i, f.blocks[k].id) == Some(f.blocks[k]),
    decreases k - i,
{
    assert(f.blocks[i].id.0 == i && f.blocks[k].id.0 == k);
    if i < k {
        lemma_block_by_id(f, i + 1, k);
    }
}

/// What is left of a run at the end of a block.
proof fn lemma_rest_of_run(
    w: World,
    types: LocalTypes,
    f: MirFunctionView,
    at: mir::BlockId,
    heap: Heap,
    env: Locals,
    env1: Locals,
    depth: nat,
    rounds: nat,
)
    requires
        execution::block_by_id(f.blocks, 0, at) == Some(f.blocks[at.0 as int]),
        is_plain_end(w, types, f.blocks[at.0 as int].terminator, f.return_type, depth),
        blocks_run(w, heap, env, f, at, depth, rounds) is Ok,
        steps_run(
            w,
            counted(heap),
            env,
            mir::active(f, f.blocks[at.0 as int].id),
            f.blocks[at.0 as int].instructions,
            0,
            depth,
        ) == Ok::<Stepped, Seq<char>>(Stepped::Done(counted(heap), env1)),
    ensures
        rounds > 0,
        match f.blocks[at.0 as int].terminator {
            MirTerminatorView::Jump(target) => blocks_run(w, heap, env, f, at, depth, rounds)
                == blocks_run(w, counted(heap), env1, f, target, depth, (rounds - 1) as nat),
            MirTerminatorView::Branch {
                condition,
                then_block,
                else_block,
                ..
            } => evaluated(w, counted(heap), env1, condition, depth) is Ok && (evaluated(
                w,
                counted(heap),
                env1,
                condition,
                depth,
            ) matches Ok((interpreter::ValueView::Bool(b), _)) ==> blocks_run(
                w,
                heap,
                env,
                f,
                at,
                depth,
                rounds,
            ) == blocks_run(
                w,
                counted(heap),
                env1,
                f,
                if b {
                    then_block
                } else {
                    else_block
                },
                depth,
                (rounds - 1) as nat,
            )),
            MirTerminatorView::Return(Some(e)) => evaluated(
                w,
                counted(heap),
                env1,
                e,
                depth,
            ) is Ok && blocks_run(w, heap, env, f, at, depth, rounds)->Ok_0.0 == evaluated(
                w,
                counted(heap),
                env1,
                e,
                depth,
            )->Ok_0.0,
            MirTerminatorView::Return(None) => blocks_run(
                w,
                heap,
                env,
                f,
                at,
                depth,
                rounds,
            )->Ok_0.0 == interpreter::ValueView::Unit,
            MirTerminatorView::Unreachable => false,
        },
{
    let block = f.blocks[at.0 as int];
    let cleanup = mir::active(f, block.id);
    let now = counted(heap);
    match block.terminator {
        MirTerminatorView::Branch { condition, .. } => {
            lemma_simple_stops(w, types, now, env1, condition, depth);
            if let Err(stop) = evaluated(w, now, env1, condition, depth) {
                assert(execution::stopped(w, stop, env1, cleanup, depth) is Err);
            }
        },
        MirTerminatorView::Return(Some(e)) => {
            lemma_simple_stops(w, types, now, env1, e, depth);
            if let Err(stop) = evaluated(w, now, env1, e, depth) {
                assert(execution::stopped(w, stop, env1, cleanup, depth) is Err);
            }
        },
        _ => {},
    }
}

/// One step of the run is counted.
spec fn counted(heap: Heap) -> Heap {
    Heap { steps: (heap.steps + 1) as u64, ..heap }
}

/// Where a run has come to at the end of a block.
spec fn comes_to_end(
    w: World,
    types: LocalTypes,
    sets: Seq<Set<u32>>,
    m: Surroundings,
    s: Emission,
    f: MirFunctionView,
    t: Emission,
    depth: nat,
    k: int,
    s2: Emission,
    st: State,
    env: Locals,
) -> bool {
    let block = f.blocks[k];
    let here = Surroundings { cleanup: mir::active(f, block.id), ..m };
    let b = reached(m, s, f, k + 1);
    &&& sound(s2)
    &&& all_typed(types, s2.locals)
    &&& is_plain_end(w, types, block.terminator, here.return_type, depth)
    &&& ended(here, s2, block.terminator, f.span) == Ok::<
        Emission,
        crate::instructions::CodegenErrorView,
    >(b)
    &&& b.commands.is_prefix_of(t.commands)
    &&& stands(t.commands, s2, st)
    &&& s2.locals.is_prefix_of(t.locals)
    &&& stays_out(t.locals, s2.commands.len() as int, b.commands.len() as int)
    &&& locals_hold(types, env, t.locals, st)
    &&& hands_on(sets, block.terminator, env.dom())
    &&& mir::leads_below(block.terminator, f.blocks.len() as int)
}

/// What the commands of a block look like.
proof fn lemma_block_shape(
    w: World,
    types: LocalTypes,
    sets: Seq<Set<u32>>,
    m: Surroundings,
    s: Emission,
    f: MirFunctionView,
    t: Emission,
    depth: nat,
    at: mir::BlockId,
)
    requires
        is_built(w, types, sets, m, s, f, t, depth),
        at.0 < f.blocks.len(),
    ensures
        ({
            let k = at.0 as int;
            let block = f.blocks[k];
            let here = Surroundings { cleanup: mir::active(f, block.id), ..m };
            let s1 = enter(reached(m, s, f, k), k);
            let s2 = all_performed(here, s1, block.instructions, 0)->Ok_0;
            let b = reached(m, s, f, k + 1);
            &&& all_performed(here, s1, block.instructions, 0) is Ok
            &&& ended(here, s2, block.terminator, f.span) == Ok::<
                Emission,
                crate::instructions::CodegenErrorView,
            >(b)
            &&& sound(s1)
            &&& is_ready(s1)
            &&& all_typed(types, s1.locals)
            &&& s1.commands.is_prefix_of(t.commands)
            &&& sound(s2)
            &&& all_typed(types, s2.locals)
            &&& grows(types, s2, t, 0)
            &&& b.commands.is_prefix_of(t.commands)
            &&& stays_out(t.locals, s2.commands.len() as int, b.commands.len() as int)
            &&& execution::block_by_id(f.blocks, 0, at) == Some(block)
        }),
{
    let cs = t.commands;
    let k = at.0 as int;
    let a = reached(m, s, f, k);
    let b = reached(m, s, f, k + 1);
    let block = f.blocks[k];
    let steps = block.instructions;
    let here = Surroundings { cleanup: mir::active(f, block.id), ..m };
    let s1 = enter(a, k);
    let s2 = all_performed(here, s1, steps, 0)->Ok_0;
    lemma_reached(w, types, sets, m, s, f, t, depth, k);
    lemma_reached(w, types, sets, m, s, f, t, depth, k + 1);
    assert(f.blocks[k].id == at);
    lemma_block_by_id(f, 0, k);
    assert(is_plain_block(w, types, sets, f, k, depth));
    lemma_enter(a, k);
    assert(reaches(a, k));
    lemma_all_performed(here, s1, steps, 0);
    lemma_ended(here, s2, block.terminator, f.span);
    lemma_extends_is_prefix(a, s1);
    lemma_extends_is_prefix(s1, s2);
    lemma_extends_is_prefix(s2, b);
    lemma_prefixes(s2.commands, b.commands, cs);
    lemma_prefixes(s1.commands, s2.commands, cs);
    lemma_sound_is_ready(s1);
    lemma_steps_grow(w, types, here, s1, steps, 0, s2, depth);
    lemma_end_grows(w, types, here, s2, block.terminator, f.span, b, depth);
    lemma_grows_less(types, s2, b, s2.commands.len() as int, 0);
    lemma_grows_less(types, b, t, k + 1, 0);
    lemma_grows_twice(types, s2, b, t, 0);
    lemma_end_keeps_locals(here, s2, block.terminator, f.span, b, types, w, depth);
    lemma_out(types, s2, b, t, b.commands.len() as int);
}

/// The end of a block declares nothing.
proof fn lemma_end_keeps_locals(
    m: Surroundings,
    s: Emission,
    end: MirTerminatorView,
    span: Span,
    t: Emission,
    types: LocalTypes,
    w: World,
    depth: nat,
)
    requires
        sound(s),
        all_typed(types, s.locals),
        is_plain_end(w, types, end, m.return_type, depth),
        ended(m, s, end, span) == Ok::<Emission, crate::instructions::CodegenErrorView>(t),
        t.commands.len() <= usize::MAX,
    ensures
        t.locals == s.locals,
{
    match end {
        MirTerminatorView::Branch { condition, span: place, .. } => {
            let (s1, v) = emitted(m, told(m, s, place), condition)->Ok_0;
            lemma_value_grows(types, m, s, place, condition, s1, v);
        },
        MirTerminatorView::Return(Some(e)) => {
            let (s1, v) = emitted(m, told(m, s, e.span()), e)->Ok_0;
            lemma_packs_nothing(types, m, s1, v, e);
            lemma_value_grows(types, m, s, e.span(), e, s1, v);
        },
        _ => {
            lemma_told_grows(types, m, s, span);
        },
    }
}

/// A run from the start of a block to its end.
proof fn lemma_block_runs(
    w: World,
    types: LocalTypes,
    sets: Seq<Set<u32>>,
    m: Surroundings,
    s: Emission,
    f: MirFunctionView,
    t: Emission,
    depth: nat,
    at: mir::BlockId,
    st: State,
    heap: Heap,
    env: Locals,
    rounds: nat,
) -> (r: (nat, Emission, State, Locals))
    requires
        is_built(w, types, sets, m, s, f, t, depth),
        at.0 < f.blocks.len(),
        st.block == at.0,
        st.pc == reached(m, s, f, at.0 as int).commands.len() + 1,
        locals_hold(types, env, t.locals, st),
        sets[at.0 as int].subset_of(env.dom()),
        blocks_run(w, heap, env, f, at, depth, rounds) is Ok,
    ensures
        run(t.commands, st, r.0) == Next::Go(r.2),
        comes_to_end(w, types, sets, m, s, f, t, depth, at.0 as int, r.1, r.2, r.3),
        execution::block_by_id(f.blocks, 0, at) == Some(f.blocks[at.0 as int]),
        steps_run(
            w,
            counted(heap),
            env,
            mir::active(f, f.blocks[at.0 as int].id),
            f.blocks[at.0 as int].instructions,
            0,
            depth,
        ) == Ok::<Stepped, Seq<char>>(Stepped::Done(counted(heap), r.3)),
{
    let cs = t.commands;
    let k = at.0 as int;
    let a = reached(m, s, f, k);
    let b = reached(m, s, f, k + 1);
    let block = f.blocks[k];
    let steps = block.instructions;
    let cleanup = mir::active(f, block.id);
    let here = Surroundings { cleanup, ..m };
    let s1 = enter(a, k);
    let s2 = all_performed(here, s1, steps, 0)->Ok_0;
    lemma_block_shape(w, types, sets, m, s, f, t, depth, at);
    assert(f.blocks[k].id.0 == k);
    assert(is_plain_block(w, types, sets, f, k, depth));
    assert(stands(cs, s1, st));
    assert(steps_run(w, counted(heap), env, cleanup, steps, 0, depth) is Ok);
    assert(set_by(steps, 0, sets[k]) == sets[k]);
    let (n1, st1) = lemma_steps_run(
        w,
        types,
        here,
        s1,
        steps,
        0,
        s2,
        t,
        cs,
        st,
        counted(heap),
        env,
        sets[k],
        cleanup,
        depth,
    );
    let env1 = steps_run(w, counted(heap), env, cleanup, steps, 0, depth)->Ok_0->Done_1;
    assert(hands_on(sets, block.terminator, env1.dom())) by {
        assert(hands_on(
            sets,
            block.terminator,
            set_by(steps, steps.len() as int, sets[k]),
        ));
    }
    (n1, s2, st1, env1)
}

/// A run from the start of a block.
proof fn lemma_blocks_run(
    w: World,
    types: LocalTypes,
    sets: Seq<Set<u32>>,
    m: Surroundings,
    s: Emission,
    f: MirFunctionView,
    t: Emission,
    depth: nat,
    at: mir::BlockId,
    st: State,
    heap: Heap,
    env: Locals,
    rounds: nat,
) -> (n: nat)
    requires
        is_built(w, types, sets, m, s, f, t, depth),
        at.0 < f.blocks.len(),
        st.block == at.0,
        st.pc == reached(m, s, f, at.0 as int).commands.len() + 1,
        locals_hold(types, env, t.locals, st),
        sets[at.0 as int].subset_of(env.dom()),
        blocks_run(w, heap, env, f, at, depth, rounds) is Ok,
    ensures
        gives(
            blocks_run(w, heap, env, f, at, depth, rounds)->Ok_0.0,
            f.return_type,
            run(t.commands, st, n),
        ),
    decreases rounds,
{
    let cs = t.commands;
    let k = at.0 as int;
    let block = f.blocks[k];
    let here = Surroundings { cleanup: mir::active(f, block.id), ..m };
    let b = reached(m, s, f, k + 1);
    let (n1, s2, st1, env1) = lemma_block_runs(
        w,
        types,
        sets,
        m,
        s,
        f,
        t,
        depth,
        at,
        st,
        heap,
        env,
        rounds,
    );
    lemma_rest_of_run(w, types, f, at, heap, env, env1, depth, rounds);
    match block.terminator {
        MirTerminatorView::Jump(target) => {
            let c = CommandView::Jump { block: target.0 as usize };
            lemma_at(cs, s2, c, st1);
            let last = gone_to(cs, st1, target.0 as int);
            assert(step(cs, st1) == Next::Go(last));
            assert(run(cs, last, 0) == Next::Go(last));
            assert(run(cs, st1, 1) == Next::Go(last));
            lemma_steps_add_up(cs, st, n1, 1);
            lemma_held_elsewhere(types, env1, t.locals, st1, last);
            lemma_block_starts(w, types, sets, m, s, f, t, depth, target.0 as int);
            let n2 = lemma_blocks_run(
                w,
                types,
                sets,
                m,
                s,
                f,
                t,
                depth,
                target,
                last,
                counted(heap),
                env1,
                (rounds - 1) as nat,
            );
            lemma_steps_add_up(cs, st, n1 + 1, n2);
            n1 + 1 + n2
        },
        MirTerminatorView::Branch { condition, then_block, else_block, .. } => {
            let (n2, last) = lemma_branches_go_where_conditions_say(
                w,
                types,
                here,
                s2,
                block.terminator,
                f.span,
                b,
                t.locals,
                cs,
                st1,
                counted(heap),
                env1,
                depth,
            );
            let target = if evaluated(w, counted(heap), env1, condition, depth)->Ok_0.0->Bool_0 {
                then_block
            } else {
                else_block
            };
            lemma_steps_add_up(cs, st, n1, n2);
            lemma_block_starts(w, types, sets, m, s, f, t, depth, target.0 as int);
            let n3 = lemma_blocks_run(
                w,
                types,
                sets,
                m,
                s,
                f,
                t,
                depth,
                target,
                last,
                counted(heap),
                env1,
                (rounds - 1) as nat,
            );
            lemma_steps_add_up(cs, st, n1 + n2, n3);
            n1 + n2 + n3
        },
        MirTerminatorView::Return(value) => {
            let n2 = lemma_return_runs(
                w,
                types,
                here,
                s2,
                value,
                f.span,
                b,
                t.locals,
                cs,
                st1,
                counted(heap),
                env1,
                depth,
            );
            lemma_steps_add_up(cs, st, n1, n2);
            n1 + n2
        },
        _ => 0,
    }
}

// ---------------------------------------------------------------------------
// Whole functions
// ---------------------------------------------------------------------------

/// A parameter of an integer or a truth value.
proof fn lemma_parameter_shape(
    types: LocalTypes,
    m: Surroundings,
    s: Emission,
    param: TypedParameterView,
    i: int,
    t: Emission,
)
    requires
        sound(s),
        all_typed(types, s.locals),
        is_scalar(param.ty),
        types.dom().contains(param.id.0),
        types[param.id.0] == param.ty,
        parameter_entered(m, s, param, i) == Ok::<
            Emission,
            crate::instructions::CodegenErrorView,
        >(t),
        t.commands.len() <= usize::MAX,
    ensures
        grows(types, s, t, s.commands.len() as int),
        t.commands.len() == s.commands.len() + 2,
        t.commands[s.commands.len() as int] is Alloca,
        t.commands[s.commands.len() as int + 1] == (CommandView::Store {
            pointer: next(s),
            value: OperandView::Parameter(i as usize),
        }),
        t.locals == s.locals.push(
            (param.id, next(s), LowType::Int(width_of(param.ty) as u32)),
        ),
        t.block == s.block,
{
    reveal(parameter_entered);
    lemma_parameter_entered(m, s, param, i);
    lemma_extends_is_prefix(s, t);
    lemma_low_scalar(m, param.ty);
    lemma_sound_locals(s, s.commands.len() as int + 1);
    lemma_one_more(types, s.locals, t.locals.last());
}

pub open spec fn are_plain(types: LocalTypes, params: Seq<TypedParameterView>) -> bool {
    forall|i: int|
        0 <= i < params.len() ==> is_scalar((#[trigger] params[i]).ty) && types.dom().contains(
            params[i].id.0,
        ) && types[params[i].id.0] == params[i].ty
}

proof fn lemma_parameters_grow(
    types: LocalTypes,
    m: Surroundings,
    s: Emission,
    params: Seq<TypedParameterView>,
    i: int,
    t: Emission,
)
    requires
        sound(s),
        all_typed(types, s.locals),
        are_plain(types, params),
        0 <= i,
        entered(m, s, params, i) == Ok::<Emission, crate::instructions::CodegenErrorView>(t),
        t.commands.len() <= usize::MAX,
    ensures
        grows(types, s, t, s.commands.len() as int),
    decreases params.len() - i,
{
    if i < params.len() {
        let s1 = parameter_entered(m, s, params[i], i)->Ok_0;
        lemma_entered(m, s1, params, i + 1);
        lemma_extends_is_prefix(s1, t);
        lemma_parameter_shape(types, m, s, params[i], i, s1);
        lemma_parameters_grow(types, m, s1, params, i + 1, t);
        lemma_grows_twice(types, s, s1, t, s.commands.len() as int);
    }
}

/// Whether arguments of the machine are values of parameters.
pub open spec fn are_given(
    params: Seq<TypedParameterView>,
    values: Seq<interpreter::ValueView>,
    arguments: Seq<Val>,
) -> bool {
    &&& values.len() == params.len()
    &&& arguments.len() == params.len()
    &&& forall|i: int|
        0 <= i < params.len() ==> crate::faithfulness::holds(
            values[i],
            (#[trigger] params[i]).ty,
            arguments[i],
        )
}

proof fn lemma_parameters_run(
    types: LocalTypes,
    m: Surroundings,
    s: Emission,
    params: Seq<TypedParameterView>,
    i: int,
    t: Emission,
    end: Emission,
    cs: Seq<CommandView>,
    st: State,
    env: Locals,
    values: Seq<interpreter::ValueView>,
) -> (r: (nat, State))
    requires
        sound(s),
        all_typed(types, s.locals),
        are_plain(types, params),
        0 <= i <= params.len() <= usize::MAX,
        entered(m, s, params, i) == Ok::<Emission, crate::instructions::CodegenErrorView>(t),
        grows(types, t, end, 0),
        cs == end.commands,
        stands(cs, s, st),
        are_distinct(end.locals),
        locals_hold(types, env, end.locals, st),
        are_given(params, values, st.arguments),
    ensures
        run(cs, st, r.0) == Next::Go(r.1),
        stands(cs, t, r.1),
        t.block == s.block,
        locals_hold(types, execution::bound(params, values, i, env), end.locals, r.1),
        forall|id: u32| #[trigger]
            env.dom().contains(id) ==> execution::bound(params, values, i, env).dom().contains(id),
        forall|j: int|
            i <= j < params.len() ==> execution::bound(params, values, i, env).dom().contains(
                (#[trigger] params[j]).id.0,
            ),
    decreases params.len() - i,
{
    if i < params.len() {
        let s1 = parameter_entered(m, s, params[i], i)->Ok_0;
        let low = LowType::Int(width_of(params[i].ty) as u32);
        lemma_entered(m, s1, params, i + 1);
        lemma_extends_is_prefix(s1, t);
        lemma_parameter_shape(types, m, s, params[i], i, s1);
        lemma_parameters_grow(types, m, s1, params, i + 1, t);
        lemma_grows_less(types, s1, t, s1.commands.len() as int, 0);
        lemma_grows_twice(types, s1, t, end, 0);
        let p = st.pc;
        assert(s1.commands[p] == cs[p] && s1.commands[p + 1] == cs[p + 1]);
        let a = lemma_room_is_made(cs, st, OperandView::Parameter(i as usize));
        let env1 = env.insert(params[i].id.0, values[i]);
        assert(a.rooms == st.rooms.insert(p, st.arguments[i]));
        lemma_held_with_one_more(
            types,
            env,
            s,
            s1,
            end,
            st,
            a,
            params[i].id,
            low,
            values[i],
        );
        lemma_sound_is_ready(s1);
        let (n, b) = lemma_parameters_run(
            types,
            m,
            s1,
            params,
            i + 1,
            t,
            end,
            cs,
            a,
            env1,
            values,
        );
        lemma_steps_add_up(cs, st, 2, n);
        assert(execution::bound(params, values, i, env) == execution::bound(
            params,
            values,
            i + 1,
            env1,
        ));
        assert(env1.dom().contains(params[i].id.0));
        assert forall|id: u32| #[trigger] env.dom().contains(id) implies execution::bound(
            params,
            values,
            i,
            env,
        ).dom().contains(id) by {
            assert(env1.dom().contains(id));
        }
        (2 + n, b)
    } else {
        (0, st)
    }
}

/// Where a run of a function starts.
pub open spec fn beginning(arguments: Seq<Val>) -> State {
    State {
        pc: 0,
        block: 0,
        from: 0,
        results: Map::empty(),
        rooms: Map::empty(),
        arguments,
    }
}

proof fn lemma_appends_run(cs: Seq<CommandView>, st: State, n: nat)
    requires
        0 <= st.pc,
        st.pc + n <= cs.len(),
        forall|i: int| st.pc <= i < st.pc + n ==> (#[trigger] cs[i]) is Append,
    ensures
        run(cs, st, n) == Next::Go(State { pc: st.pc + n, ..st }),
    decreases n,
{
    if n > 0 {
        assert(cs[st.pc] is Append);
        lemma_appends_run(cs, gone_on(st), (n - 1) as nat);
    } else {
        assert(State { pc: st.pc + 0, ..st } == st);
    }
}

/// What a function has before its parameters.
spec fn opened(m: Surroundings, f: MirFunctionView) -> Emission {
    let s = Emission {
        commands: crate::emission::appended(f, f.blocks.len() as int),
        block: 0,
        locals: Seq::empty(),
        variables: Seq::empty(),
    };
    let s1 = match m.debug {
        Some((source, _)) => place_told(s, source, f.span.start as int),
        None => s,
    };
    enter(s1, 0)
}

proof fn lemma_opened(types: LocalTypes, m: Surroundings, f: MirFunctionView)
    requires
        mir::well_formed(f),
        f.blocks.len() > 0,
    ensures
        ({
            let s = opened(m, f);
            let n = f.blocks.len() as int;
            &&& s.commands.len() <= usize::MAX ==> sound(s)
            &&& all_typed(types, s.locals)
            &&& s.locals.len() == 0
            &&& has_blocks(s, n)
            &&& n < s.commands.len()
            &&& s.commands.len() <= usize::MAX ==> is_before(s, 1, n)
            &&& s.block == 0
            &&& s.commands.last() == (CommandView::Position { block: 0 })
            &&& forall|i: int| 0 <= i < n ==> (#[trigger] s.commands[i]) is Append
            &&& s.commands.len() == n + 1 || (s.commands.len() == n + 2 && s.commands[n] is Locate)
        }),
{
    let n = f.blocks.len() as int;
    let s = Emission {
        commands: crate::emission::appended(f, n),
        block: 0,
        locals: Seq::empty(),
        variables: Seq::empty(),
    };
    lemma_appended(f, n);
    assert(has_blocks(s, n)) by {
        assert forall|k: int| 0 <= k < n implies #[trigger] reaches(s, k) by {
            assert(s.commands[k] is Append);
        }
    }
    assert(reaches(s, 0));
    assert(s.commands.len() <= usize::MAX ==> sound(s)) by {
        reveal(sound);
    }
    let s1 = match m.debug {
        Some((source, _)) => {
            lemma_place_told(s, source, f.span.start as int);
            lemma_extends_is_prefix(s, place_told(s, source, f.span.start as int));
            place_told(s, source, f.span.start as int)
        },
        None => s,
    };
    assert forall|i: int| 0 <= i < n implies #[trigger] s1.commands[i] == s.commands[i] by {}
    assert(reaches(s1, 0)) by {
        assert(s1.commands[0] == s.commands[0]);
    }
    lemma_enter(s1, 0);
    let t = enter(s1, 0);
    assert forall|i: int| 0 <= i < n implies (#[trigger] t.commands[i]) is Append by {
        assert(t.commands[i] == s1.commands[i]);
    }
    assert(has_blocks(t, n)) by {
        assert forall|k: int| 0 <= k < n implies #[trigger] reaches(t, k) by {
            assert(t.commands[k] is Append);
        }
    }
}

/// A compiled function gives what the interpreted one gives. Functions of
/// integers and truth values are covered, whose locals have identities of their
/// own, that do not divide the least number by minus one, and that change no
/// local without a value.
pub proof fn lemma_compiled_functions_give_what_interpreted_ones_do(
    w: World,
    types: LocalTypes,
    sets: Seq<Set<u32>>,
    m: Surroundings,
    f: MirFunctionView,
    t: Emission,
    values: Seq<interpreter::ValueView>,
    arguments: Seq<Val>,
    heap: Heap,
    depth: nat,
) -> (n: nat)
    requires
        depth > 0,
        is_plain_function(w, types, sets, f, (depth - 1) as nat),
        mir::function_by_id(w.mir.functions, 0, f.id) == Some(f),
        m.return_type == f.return_type,
        function_emitted(m, f) == Ok::<Emission, crate::instructions::CodegenErrorView>(t),
        t.commands.len() <= usize::MAX,
        f.params.len() <= usize::MAX,
        are_distinct(t.locals),
        are_given(f.params, values, arguments),
        execution::called(w, heap, f.id, values, depth) is Ok,
    ensures
        gives(
            execution::called(w, heap, f.id, values, depth)->Ok_0.0,
            f.return_type,
            run(t.commands, beginning(arguments), n),
        ),
{
    let cs = t.commands;
    let count = f.blocks.len() as int;
    let less = (depth - 1) as nat;
    let st = beginning(arguments);
    let s = opened(m, f);
    let s3 = entered(m, s, f.params, 0)->Ok_0;
    lemma_opened(types, m, f);
    assert(are_plain(types, f.params));
    lemma_blocks_emitted(m, s3, f, 0);
    lemma_entered(m, s, f.params, 0);
    lemma_extends_is_prefix(s3, t);
    lemma_extends_is_prefix(s, s3);
    lemma_prefixes(s.commands, s3.commands, cs);
    lemma_parameters_grow(types, m, s, f.params, 0, s3);
    assert(is_before(s3, 1, count)) by {
        assert forall|i: int| 0 <= i < s3.commands.len() implies (#[trigger] s3.commands[i] matches
            CommandView::Position { block } ==> block < 1 || block >= count) by {
            if i < s.commands.len() {
                assert(s3.commands[i] == s.commands[i]);
            }
        }
    }
    assert(has_blocks(s3, count)) by {
        assert forall|k: int| 0 <= k < count implies #[trigger] reaches(s3, k) by {
            assert(s3.commands[k] == s.commands[k]);
        }
    }
    assert(is_built(w, types, sets, m, s3, f, t, less));
    lemma_reached(w, types, sets, m, s3, f, t, less, 0);
    lemma_reached(w, types, sets, m, s3, f, t, less, 1);
    lemma_block_grows(w, types, sets, m, s3, f, 0, reached(m, s3, f, 1), less);
    let (n1, st1) = lemma_opening_runs(cs, s, count, st);
    lemma_sound_is_ready(s);
    let none: Locals = Map::empty();
    let (n2, st2) = lemma_parameters_run(
        types,
        m,
        s,
        f.params,
        0,
        s3,
        t,
        cs,
        st1,
        none,
        values,
    );
    let env = execution::bound(f.params, values, 0, none);
    let place = s3.commands.len() as int;
    assert(enter(s3, 0).commands[place] == reached(m, s3, f, 1).commands[place]);
    assert(cs[place] == (CommandView::Position { block: 0 }));
    let st3 = gone_on(st2);
    assert(step(cs, st2) == Next::Go(st3));
    assert(run(cs, st3, 0) == Next::Go(st3));
    assert(run(cs, st2, 1) == Next::Go(st3));
    lemma_held_elsewhere(types, env, t.locals, st2, st3);
    assert(sets[0].subset_of(env.dom())) by {
        assert forall|id: u32| sets[0].contains(id) implies env.dom().contains(id) by {
            let i = choose|i: int|
                0 <= i < f.params.len() && (#[trigger] f.params[i]).id.0 == id;
            assert(env.dom().contains(f.params[i].id.0));
        }
    }
    let n3 = lemma_blocks_run(
        w,
        types,
        sets,
        m,
        s3,
        f,
        t,
        less,
        f.entry,
        st3,
        heap,
        env,
        (execution::MAX_STEPS + 1) as nat,
    );
    lemma_steps_add_up(cs, st, n1, n2);
    lemma_steps_add_up(cs, st, n1 + n2, 1);
    lemma_steps_add_up(cs, st, n1 + n2 + 1, n3);
    n1 + n2 + 1 + n3
}

/// The blocks are there before the first parameter.
proof fn lemma_opening_runs(cs: Seq<CommandView>, s: Emission, n: int, st: State) -> (r: (
    nat,
    State,
))
    requires
        st.pc == 0,
        st.block == 0,
        0 < n,
        s.commands.is_prefix_of(cs),
        s.commands.last() == (CommandView::Position { block: 0 }),
        forall|i: int| 0 <= i < n ==> (#[trigger] s.commands[i]) is Append,
        s.commands.len() == n + 1 || (s.commands.len() == n + 2 && s.commands[n] is Locate),
    ensures
        run(cs, st, r.0) == Next::Go(r.1),
        r.1 == (State { pc: s.commands.len() as int, ..st }),
{
    assert forall|i: int| 0 <= i < n implies (#[trigger] cs[i]) is Append by {
        assert(cs[i] == s.commands[i]);
    }
    lemma_appends_run(cs, st, n as nat);
    let a = State { pc: n, ..st };
    assert(cs[n] == s.commands[n]);
    let b = gone_on(a);
    assert(step(cs, a) == Next::Go(b));
    assert(run(cs, b, 0) == Next::Go(b));
    assert(run(cs, a, 1) == Next::Go(b));
    lemma_steps_add_up(cs, st, n as nat, 1);
    if s.commands.len() == n + 1 {
        ((n + 1) as nat, b)
    } else {
        assert(cs[n + 1] == s.commands[n + 1]);
        let c = gone_on(b);
        assert(step(cs, b) == Next::Go(c));
        assert(run(cs, c, 0) == Next::Go(c));
        assert(run(cs, b, 1) == Next::Go(c));
        lemma_steps_add_up(cs, st, (n + 1) as nat, 1);
        ((n + 2) as nat, c)
    }
}

} // verus!
