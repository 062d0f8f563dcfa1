//! Arguments, fields and elements come in order.
use crate::emission;
use crate::emission::{
    call_issued, emitted, inserted, issue, next, packed, passed, Emission, Surroundings,
};
use crate::execution;
use crate::execution::{all_evaluated, evaluated, Heap, Locals, World};
use crate::faithfulness::{
    divides_safely, holds, is_below, is_simple, lemma_at, lemma_emitted_grows, lemma_emitted_shape,
    lemma_expressions_run_as_they_evaluate, lemma_locals_stay, lemma_low_scalar,
    lemma_operand_stays, lemma_prefixes, lemma_simple_is_scalar, lemma_sound_is_ready,
    lemma_sound_locals, locals_hold, locals_typed, stands, LocalTypes,
};
use crate::instructions::{CommandView, LowType, OperandView, ValueView};
use crate::interpreter;
use crate::lexer::Span;
use crate::machine::{lemma_steps_add_up, operand_value, run, step, with_result, Next, State, Val};
use crate::soundness::{lemma_emitted, lemma_inserted, lemma_issue, lemma_passed};
use crate::typed::{DefId, ResolvedType, TypedExprView};
use crate::wiring::sound;
use vstd::prelude::*;

verus! {

// ---------------------------------------------------------------------------
// Interpreted
// ---------------------------------------------------------------------------

/// Whether expression `i` gives value `i`, each where the one before it left the
/// memory.
pub open spec fn gives_each(
    w: World,
    env: Locals,
    es: Seq<TypedExprView>,
    heaps: Seq<Heap>,
    values: Seq<interpreter::ValueView>,
    depth: nat,
) -> bool {
    &&& heaps.len() == es.len() + 1
    &&& values.len() == es.len()
    &&& forall|i: int|
        0 <= i < es.len() ==> evaluated(w, heaps[i], env, #[trigger] es[i], depth) == Ok::<
            (interpreter::ValueView, Heap),
            execution::StopView,
        >((values[i], heaps[i + 1]))
}

proof fn lemma_all_are_evaluated(
    w: World,
    env: Locals,
    es: Seq<TypedExprView>,
    heaps: Seq<Heap>,
    values: Seq<interpreter::ValueView>,
    depth: nat,
    i: int,
)
    requires
        gives_each(w, env, es, heaps, values, depth),
        0 <= i <= es.len(),
    ensures
        all_evaluated(w, heaps[i], env, es, i, values.take(i), depth) == Ok::<
            (Seq<interpreter::ValueView>, Heap),
            execution::StopView,
        >((values, heaps.last())),
    decreases es.len() - i,
{
    if i < es.len() {
        assert(evaluated(w, heaps[i], env, es[i], depth) == Ok::<
            (interpreter::ValueView, Heap),
            execution::StopView,
        >((values[i], heaps[i + 1])));
        assert(values.take(i).push(values[i]) =~= values.take(i + 1));
        lemma_all_are_evaluated(w, env, es, heaps, values, depth, i + 1);
    } else {
        assert(values.take(i) =~= values);
    }
}

/// Where argument `i` gives value `i`, a call is made with those values in that
/// order. A struct has them as its fields, and an array as its elements.
pub proof fn lemma_values_come_in_order(
    w: World,
    env: Locals,
    e: TypedExprView,
    es: Seq<TypedExprView>,
    heaps: Seq<Heap>,
    values: Seq<interpreter::ValueView>,
    depth: nat,
)
    requires
        gives_each(w, env, es, heaps, values, depth),
    ensures
        e matches TypedExprView::Call { function, arguments, .. } ==> (arguments == es
            ==> evaluated(w, heaps[0], env, e, depth) == execution::within(execution::called(w, heaps.last(), function, values, depth))),
        e matches TypedExprView::StructLiteral { fields, .. } ==> (fields == es ==> evaluated(
            w,
            heaps[0],
            env,
            e,
            depth,
        ) == Ok::<(interpreter::ValueView, Heap), execution::StopView>(
            (interpreter::ValueView::Struct(values), heaps.last()),
        )),
        e matches TypedExprView::ArrayLiteral { elements, .. } ==> (elements == es ==> evaluated(
            w,
            heaps[0],
            env,
            e,
            depth,
        ) == Ok::<(interpreter::ValueView, Heap), execution::StopView>(
            (interpreter::ValueView::Array(values), heaps.last()),
        )),
{
    lemma_all_are_evaluated(w, env, es, heaps, values, depth, 0);
    assert(values.take(0) =~= Seq::empty());
}

// ---------------------------------------------------------------------------
// Compiled
// ---------------------------------------------------------------------------

/// Whether expressions are simple, divide safely and have values.
pub open spec fn are_simple(
    w: World,
    types: LocalTypes,
    heap: Heap,
    env: Locals,
    es: Seq<TypedExprView>,
    depth: nat,
) -> bool {
    forall|i: int|
        0 <= i < es.len() ==> is_simple(types, #[trigger] es[i]) && divides_safely(
            w,
            heap,
            env,
            es[i],
            depth,
        ) && evaluated(w, heap, env, es[i], depth) is Ok
}

/// Whether operand `i` holds the value of expression `i`, for the first `n`.
pub open spec fn hold_values(
    w: World,
    heap: Heap,
    env: Locals,
    es: Seq<TypedExprView>,
    os: Seq<OperandView>,
    n: int,
    st: State,
    depth: nat,
) -> bool {
    &&& os.len() == n
    &&& forall|i: int|
        0 <= i < n ==> is_below(#[trigger] os[i], st.pc) && holds(
            evaluated(w, heap, env, es[i], depth)->Ok_0.0,
            es[i].ty(),
            operand_value(st, os[i]),
        )
}

proof fn lemma_passing_runs(
    w: World,
    types: LocalTypes,
    m: Surroundings,
    s: Emission,
    function: DefId,
    es: Seq<TypedExprView>,
    i: int,
    before: Seq<OperandView>,
    t: Emission,
    os: Seq<OperandView>,
    cs: Seq<CommandView>,
    st: State,
    heap: Heap,
    env: Locals,
    depth: nat,
) -> (r: (nat, State))
    requires
        sound(s),
        stands(cs, s, st),
        locals_typed(types, s.locals),
        locals_hold(types, env, s.locals, st),
        are_simple(w, types, heap, env, es, depth),
        0 <= i <= es.len(),
        hold_values(w, heap, env, es, before, i, st, depth),
        passed(m, s, function, es, i, before) == Ok::<
            (Emission, Seq<OperandView>),
            crate::instructions::CodegenErrorView,
        >((t, os)),
        t.commands.is_prefix_of(cs),
    ensures
        run(cs, st, r.0) == Next::Go(r.1),
        stands(cs, t, r.1),
        hold_values(w, heap, env, es, os, es.len() as int, r.1, depth),
    decreases es.len() - i,
{
    if i < es.len() {
        let (s1, v) = emitted(m, s, es[i])->Ok_0;
        lemma_emitted_grows(m, s, es[i]);
        lemma_simple_is_scalar(types, es[i]);
        lemma_low_scalar(m, es[i].ty());
        let (s2, value) = packed(m, s1, v, function, es[i].ty())->Ok_0;
        assert(s1.commands.len() <= s2.commands.len());
        lemma_passed(m, s2, function, es, i + 1, before.push(value.operand));
        crate::faithfulness::lemma_extends_is_prefix(s2, t);
        lemma_emitted_shape(m, types, s, es[i]);
        assert((s2, value) == (s1, v));
        lemma_prefixes(s1.commands, t.commands, cs);
        let (n, a) = lemma_expressions_run_as_they_evaluate(
            m,
            types,
            s,
            es[i],
            s1,
            v,
            w,
            heap,
            env,
            depth,
            cs,
            st,
        );
        lemma_sound_locals(s, a.pc);
        lemma_locals_stay(types, env, s.locals, st, a);
        let more = before.push(v.operand);
        assert forall|j: int| 0 <= j < i + 1 implies is_below(#[trigger] more[j], a.pc) && holds(
            evaluated(w, heap, env, es[j], depth)->Ok_0.0,
            es[j].ty(),
            operand_value(a, more[j]),
        ) by {
            if j < i {
                assert(more[j] == before[j]);
                lemma_operand_stays(st, a, before[j], st.pc);
            }
        }
        let (k, b) = lemma_passing_runs(
            w,
            types,
            m,
            s1,
            function,
            es,
            i + 1,
            more,
            t,
            os,
            cs,
            a,
            heap,
            env,
            depth,
        );
        lemma_steps_add_up(cs, st, n, k);
        (n + k, b)
    } else {
        (0, st)
    }
}

/// The code of a call hands the function its arguments in order: operand `i` of
/// the call holds the value of argument `i`.
pub proof fn lemma_calls_pass_their_arguments(
    w: World,
    types: LocalTypes,
    m: Surroundings,
    s: Emission,
    function: DefId,
    es: Seq<TypedExprView>,
    ty: ResolvedType,
    span: Span,
    cs: Seq<CommandView>,
    st: State,
    heap: Heap,
    env: Locals,
    depth: nat,
) -> (r: (nat, State))
    requires
        sound(s),
        stands(cs, s, st),
        locals_typed(types, s.locals),
        locals_hold(types, env, s.locals, st),
        are_simple(w, types, heap, env, es, depth),
        emission::called(m, s, function, es, ty, span) matches Ok((t, _))
            && t.commands.is_prefix_of(cs),
    ensures
        run(cs, st, r.0) == Next::Go(r.1),
        0 <= r.1.pc < cs.len(),
        cs[r.1.pc] matches CommandView::Call { function: given, arguments, .. } && given == function
            && hold_values(w, heap, env, es, arguments, es.len() as int, r.1, depth),
{
    let (t, _) = emission::called(m, s, function, es, ty, span)->Ok_0;
    let (s1, os) = passed(m, s, function, es, 0, Seq::empty())->Ok_0;
    reveal(call_issued);
    let c = CommandView::Call { function, arguments: os, name: "call"@ };
    let s2 = issue(s1, c);
    assert(s2.commands.is_prefix_of(t.commands));
    lemma_prefixes(s2.commands, t.commands, cs);
    assert(s1.commands.is_prefix_of(s2.commands));
    lemma_prefixes(s1.commands, s2.commands, cs);
    let (n, a) = lemma_passing_runs(
        w,
        types,
        m,
        s,
        function,
        es,
        0,
        Seq::empty(),
        s1,
        os,
        cs,
        st,
        heap,
        env,
        depth,
    );
    lemma_at(cs, s1, c, a);
    (n, a)
}

/// Whether part `i` of a value holds the value of expression `i`, for the first
/// `n`.
pub open spec fn has_parts(
    w: World,
    heap: Heap,
    env: Locals,
    es: Seq<TypedExprView>,
    n: int,
    value: Val,
    depth: nat,
) -> bool {
    value matches Val::Parts(parts) && forall|i: int|
        0 <= i < n ==> holds(
            evaluated(w, heap, env, #[trigger] es[i], depth)->Ok_0.0,
            es[i].ty(),
            parts[i as nat],
        )
}

/// The code of a struct or an array puts the value of field or element `i` at
/// place `i`.
pub proof fn lemma_parts_stand_in_their_places(
    w: World,
    types: LocalTypes,
    m: Surroundings,
    s: Emission,
    es: Seq<TypedExprView>,
    i: int,
    aggregate: OperandView,
    low: LowType,
    name: Seq<char>,
    t: Emission,
    v: ValueView,
    cs: Seq<CommandView>,
    st: State,
    heap: Heap,
    env: Locals,
    depth: nat,
) -> (r: (nat, State))
    requires
        sound(s),
        stands(cs, s, st),
        locals_typed(types, s.locals),
        locals_hold(types, env, s.locals, st),
        are_simple(w, types, heap, env, es, depth),
        0 <= i <= es.len() <= u32::MAX,
        is_below(aggregate, st.pc),
        has_parts(w, heap, env, es, i, operand_value(st, aggregate), depth),
        inserted(m, s, es, i, aggregate, low, name) == Ok::<
            (Emission, ValueView),
            crate::instructions::CodegenErrorView,
        >((t, v)),
        t.commands.is_prefix_of(cs),
        crate::wiring::knows(s, aggregate),
    ensures
        run(cs, st, r.0) == Next::Go(r.1),
        stands(cs, t, r.1),
        has_parts(w, heap, env, es, es.len() as int, operand_value(r.1, v.operand), depth),
    decreases es.len() - i,
{
    if i < es.len() {
        let (s1, x) = emitted(m, s, es[i])->Ok_0;
        lemma_emitted(m, s, es[i]);
        lemma_emitted_grows(m, s, es[i]);
        let c = CommandView::Insert {
            aggregate,
            value: x.operand,
            index: (i % 0x1_0000_0000) as u32,
            name,
        };
        let s2 = issue(s1, c);
        lemma_issue(s1, c);
        lemma_inserted(m, s2, es, i + 1, next(s1), low, name);
        crate::faithfulness::lemma_extends_is_prefix(s2, t);
        assert(s1.commands.is_prefix_of(s2.commands));
        lemma_prefixes(s2.commands, t.commands, cs);
        lemma_prefixes(s1.commands, s2.commands, cs);
        lemma_emitted_shape(m, types, s, es[i]);
        let (n, a) = lemma_expressions_run_as_they_evaluate(
            m,
            types,
            s,
            es[i],
            s1,
            x,
            w,
            heap,
            env,
            depth,
            cs,
            st,
        );
        lemma_sound_locals(s, a.pc);
        lemma_locals_stay(types, env, s.locals, st, a);
        lemma_operand_stays(st, a, aggregate, st.pc);
        lemma_at(cs, s1, c, a);
        let parts = operand_value(a, aggregate)->Parts_0;
        let whole = Val::Parts(parts.insert(i as nat, operand_value(a, x.operand)));
        let b = with_result(a, whole);
        assert(step(cs, a) == Next::Go(b));
        assert(run(cs, b, 0) == Next::Go(b));
        assert(run(cs, a, 1) == Next::Go(b));
        assert(crate::wiring::knows(s1, aggregate)) by {
            crate::wiring::lemma_knows_more(s, s1, aggregate);
        }
        assert(sound(s2));
        lemma_sound_is_ready(s2);
        lemma_sound_locals(s1, b.pc);
        lemma_locals_stay(types, env, s1.locals, a, b);
        assert(has_parts(w, heap, env, es, i + 1, operand_value(b, next(s1)), depth));
        lemma_steps_add_up(cs, st, n, 1);
        let (k, end) = lemma_parts_stand_in_their_places(
            w,
            types,
            m,
            s2,
            es,
            i + 1,
            next(s1),
            low,
            name,
            t,
            v,
            cs,
            b,
            heap,
            env,
            depth,
        );
        lemma_steps_add_up(cs, st, n + 1, k);
        (n + 1 + k, end)
    } else {
        (0, st)
    }
}

} // verus!
