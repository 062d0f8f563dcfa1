//! What compile-time code does.
use crate::ast::{
    BinaryOp, BlockView, ExprView, FunctionDeclView, ParameterView, StmtView, StructInitView,
    TypeView, UnaryOp,
};
use crate::comptime::{ErrorView, ValueView};
use crate::expansion::{
    all_emitted, all_evaluated, binary_value, block_run, called, done_before, emitted, evaluated,
    expanded, fields_emitted, function_named, inits_evaluated, loop_run, parameters_bound, place_of,
    statement_run, statements_run, ticked, unary_value, value_named, value_of, with_value, Ending,
    Progress, Setting, Values,
};
use crate::floats::FloatModel;
use crate::integers::{held, lemma_held_as_itself, lemma_pow2_128, low};
use crate::lexer::Span;
use crate::ops;
use vstd::prelude::*;

verus! {

// ---------------------------------------------------------------------------
// Names
// ---------------------------------------------------------------------------

proof fn lemma_place_of(values: Values, i: int, name: Seq<char>)
    requires
        0 <= i,
    ensures
        place_of(values, i, name) matches Some(k) ==> i <= k < values.len() && values[k].0 == name
            && forall|j: int| i <= j < k ==> (#[trigger] values[j]).0 != name,
        place_of(values, i, name) is None ==> forall|j: int|
            i <= j < values.len() ==> (#[trigger] values[j]).0 != name,
    decreases values.len() - i,
{
    if i < values.len() && values[i].0 != name {
        lemma_place_of(values, i + 1, name);
    }
}

/// A name that is given a value has that value, and all others keep theirs.
pub proof fn lemma_names_hold_their_values(
    values: Values,
    name: Seq<char>,
    value: ValueView,
    other: Seq<char>,
)
    ensures
        value_named(with_value(values, name, value), name) == Some(value),
        other != name ==> value_named(with_value(values, name, value), other) == value_named(
            values,
            other,
        ),
{
    let more = with_value(values, name, value);
    lemma_place_of(values, 0, name);
    lemma_place_of(more, 0, name);
    lemma_place_of(values, 0, other);
    lemma_place_of(more, 0, other);
    match place_of(values, 0, name) {
        Some(k) => {
            assert(more[k].0 == name);
            assert forall|j: int| 0 <= j < values.len() implies (#[trigger] more[j]).0
                == values[j].0 by {}
            let a = place_of(more, 0, name)->Some_0;
            assert(more[a].0 == values[a].0);
            if other != name {
                match place_of(values, 0, other) {
                    Some(b) => {
                        assert(more[b].0 == values[b].0);
                        let c = place_of(more, 0, other)->Some_0;
                        assert(more[c].0 == values[c].0);
                        assert(c == b);
                    },
                    None => {
                        if let Some(c) = place_of(more, 0, other) {
                            assert(more[c].0 == values[c].0);
                        }
                    },
                }
            }
        },
        None => {
            let n = values.len() as int;
            assert(more[n] == (name, value));
            assert forall|j: int| 0 <= j < n implies #[trigger] more[j] == values[j] by {}
            let a = place_of(more, 0, name)->Some_0;
            if a < n {
                assert(values[a].0 == name);
            }
            if other != name {
                match place_of(values, 0, other) {
                    Some(b) => {
                        assert(more[b].0 == other);
                        let c = place_of(more, 0, other)->Some_0;
                        assert(c <= b);
                        assert(more[c] == values[c]);
                    },
                    None => {
                        if let Some(c) = place_of(more, 0, other) {
                            if c < n {
                                assert(values[c].0 == other);
                            }
                        }
                    },
                }
            }
        },
    }
}

/// Whether no two parameters have the same name.
pub open spec fn have_their_own_names(params: Seq<ParameterView>) -> bool {
    forall|i: int, j: int|
        0 <= i < j < params.len() ==> (#[trigger] params[i]).name != (#[trigger] params[j]).name
}

/// Whether each parameter has the argument in its place as its value.
pub open spec fn holds_arguments(
    env: Values,
    params: Seq<ParameterView>,
    values: Seq<ValueView>,
) -> bool {
    forall|k: int|
        0 <= k < params.len() && k < values.len() ==> value_named(env, (#[trigger] params[k]).name)
            == Some(values[k])
}

proof fn lemma_parameters_bound(
    params: Seq<ParameterView>,
    values: Seq<ValueView>,
    i: int,
    env: Values,
)
    requires
        0 <= i <= params.len(),
        params.len() == values.len(),
        have_their_own_names(params),
        forall|k: int|
            0 <= k < i ==> value_named(env, (#[trigger] params[k]).name) == Some(values[k]),
    ensures
        holds_arguments(parameters_bound(params, values, i, env), params, values),
    decreases params.len() - i,
{
    if i < params.len() {
        let more = with_value(env, params[i].name, values[i]);
        assert forall|k: int| 0 <= k < i + 1 implies value_named(more, (#[trigger] params[k]).name)
            == Some(values[k]) by {
            lemma_names_hold_their_values(env, params[i].name, values[i], params[k].name);
            if k < i {
                assert(params[k].name != params[i].name);
            }
        }
        lemma_parameters_bound(params, values, i + 1, more);
    }
}

// ---------------------------------------------------------------------------
// Calls
// ---------------------------------------------------------------------------

/// A call runs the body of the function of the name, with each parameter as the
/// argument in its place, and gives what the body returns.
pub proof fn lemma_calls_run_bodies(
    s: Setting,
    p: Progress,
    f: FunctionDeclView,
    name: Seq<char>,
    values: Seq<ValueView>,
    span: Span,
    depth: nat,
) -> (env: Values)
    requires
        function_named(s, name) == Some(f),
        !f.is_extern,
        values.len() == f.params.len(),
        have_their_own_names(f.params),
        done_before(s.floats, p.done, p.done.len() as int, name, values) is None,
        depth > 0,
    ensures
        holds_arguments(env, f.params, values),
        block_run(s, p, env, f.body, (depth - 1) as nat) matches (Ok((Ending::Return(x), _)), _)
            ==> called(s, p, name, values, span, depth).0 == Ok::<ValueView, ErrorView>(x),
        block_run(s, p, env, f.body, (depth - 1) as nat) matches (Ok((Ending::Normal, _)), _)
            ==> called(s, p, name, values, span, depth).0 == Ok::<ValueView, ErrorView>(
            ValueView::Unit,
        ),
        block_run(s, p, env, f.body, (depth - 1) as nat) matches (Err(error), _) ==> called(
            s,
            p,
            name,
            values,
            span,
            depth,
        ).0 == Err::<ValueView, ErrorView>(error),
{
    lemma_parameters_bound(f.params, values, 0, Seq::empty());
    parameters_bound(f.params, values, 0, Seq::empty())
}

// ---------------------------------------------------------------------------
// Statements
// ---------------------------------------------------------------------------

/// An `if` goes by its condition: where that is true it ends as its first block
/// does, where that is false as its second block, and without one nothing
/// changes.
pub proof fn lemma_choices_follow_their_conditions(
    s: Setting,
    p: Progress,
    env: Values,
    condition: ExprView,
    yes: BlockView,
    no: Option<BlockView>,
    span: Span,
    depth: nat,
    truth: bool,
    after: Progress,
)
    requires
        evaluated(s, p, env, condition, depth) == (
            Ok::<ValueView, ErrorView>(ValueView::Bool(truth)),
            after,
        ),
    ensures
        ({
            let choice = StmtView::If { condition, then_branch: yes, else_branch: no, span };
            let outcome = statement_run(s, p, env, choice, depth);
            if truth {
                outcome == block_run(s, after, env, yes, depth)
            } else {
                match no {
                    Some(branch) => outcome == block_run(s, after, env, branch, depth),
                    None => outcome == (
                        Ok::<(Ending, Values), ErrorView>((Ending::Normal, env)),
                        after,
                    ),
                }
            }
        }),
{
}

/// A loop whose condition is false is done. One whose condition is true runs its
/// body: a `break` ends the loop, a `return` leaves it with its value, and
/// otherwise, after a `continue` too, the loop runs again from there.
pub proof fn lemma_loops_repeat_while_their_condition_holds(
    s: Setting,
    p: Progress,
    env: Values,
    condition: ExprView,
    body: BlockView,
    span: Span,
    depth: nat,
    rounds: nat,
    truth: bool,
    after: Progress,
)
    requires
        evaluated(s, p, env, condition, depth) == (
            Ok::<ValueView, ErrorView>(ValueView::Bool(truth)),
            after,
        ),
    ensures
        ({
            let outcome = loop_run(s, p, env, condition, body, span, depth, rounds + 1);
            if !truth {
                outcome == (Ok::<(Ending, Values), ErrorView>((Ending::Normal, env)), after)
            } else {
                match block_run(s, after, env, body, depth) {
                    (Ok((Ending::Break, locals)), last) => outcome == (
                        Ok::<(Ending, Values), ErrorView>((Ending::Normal, locals)),
                        last,
                    ),
                    (Ok((Ending::Return(x), locals)), last) => outcome == (
                        Ok::<(Ending, Values), ErrorView>((Ending::Return(x), locals)),
                        last,
                    ),
                    (Ok((_, locals)), last) => outcome == loop_run(
                        s,
                        last,
                        locals,
                        condition,
                        body,
                        span,
                        depth,
                        rounds,
                    ),
                    (Err(error), last) => outcome == (
                        Err::<(Ending, Values), ErrorView>(error),
                        last,
                    ),
                }
            }
        }),
        statement_run(s, p, env, StmtView::While { condition, body, span }, depth) == loop_run(
            s,
            p,
            env,
            condition,
            body,
            span,
            depth,
            s.limits.steps as nat,
        ),
{
}

proof fn lemma_later_statements(
    s: Setting,
    p: Progress,
    env: Values,
    a: Seq<StmtView>,
    b: Seq<StmtView>,
    i: int,
    depth: nat,
)
    requires
        0 <= i,
    ensures
        statements_run(s, p, env, a + b, a.len() + i, depth) == statements_run(
            s,
            p,
            env,
            b,
            i,
            depth,
        ),
    decreases b.len() - i,
{
    if i < b.len() {
        assert((a + b)[a.len() + i] == b[i]);
        if let (Ok((Ending::Normal, locals)), after) = statement_run(s, p, env, b[i], depth) {
            lemma_later_statements(s, after, locals, a, b, i + 1, depth);
        }
    }
}

proof fn lemma_earlier_statements(
    s: Setting,
    p: Progress,
    env: Values,
    a: Seq<StmtView>,
    b: Seq<StmtView>,
    i: int,
    depth: nat,
)
    requires
        0 <= i <= a.len(),
    ensures
        statements_run(s, p, env, a + b, i, depth) == (match statements_run(
            s,
            p,
            env,
            a,
            i,
            depth,
        ) {
            (Ok((Ending::Normal, locals)), after) => statements_run(
                s,
                after,
                locals,
                b,
                0,
                depth,
            ),
            other => other,
        }),
    decreases a.len() - i,
{
    if i < a.len() {
        assert((a + b)[i] == a[i]);
        if let (Ok((Ending::Normal, locals)), after) = statement_run(s, p, env, a[i], depth) {
            lemma_earlier_statements(s, after, locals, a, b, i + 1, depth);
        }
    } else {
        lemma_later_statements(s, p, env, a, b, 0, depth);
    }
}

/// Statements run one after the other: the later ones from where the earlier
/// ones end, unless those leave the block.
pub proof fn lemma_statements_run_in_order(
    s: Setting,
    p: Progress,
    env: Values,
    a: Seq<StmtView>,
    b: Seq<StmtView>,
    span: Span,
    depth: nat,
)
    ensures
        block_run(s, p, env, BlockView { statements: a + b, span }, depth) == (match block_run(
            s,
            p,
            env,
            BlockView { statements: a, span },
            depth,
        ) {
            (Ok((Ending::Normal, locals)), after) => block_run(
                s,
                after,
                locals,
                BlockView { statements: b, span },
                depth,
            ),
            other => other,
        }),
        block_run(s, p, env, BlockView { statements: Seq::empty(), span }, depth) == (
            Ok::<(Ending, Values), ErrorView>((Ending::Normal, env)),
            p,
        ),
        a.len() == 1 ==> block_run(s, p, env, BlockView { statements: a, span }, depth)
            == statement_run(s, p, env, a[0], depth),
{
    lemma_earlier_statements(s, p, env, a, b, 0, depth);
    if a.len() == 1 {
        if let (Ok((Ending::Normal, locals)), after) = statement_run(s, p, env, a[0], depth) {
            assert(statements_run(s, after, locals, a, 1, depth) == (
                Ok::<(Ending, Values), ErrorView>((Ending::Normal, locals)),
                after,
            ));
        }
    }
}

/// A declaration gives its name the value of its expression, and an assignment
/// gives it to a name that has a value already. Other names keep their values.
pub proof fn lemma_assigned_names_have_their_values(
    s: Setting,
    p: Progress,
    env: Values,
    st: StmtView,
    depth: nat,
    other: Seq<char>,
)
    requires
        st is Variable || (st is Assignment && st->Assignment_target is Identifier),
    ensures
        ({
            let (name, e) = match st {
                StmtView::Variable(v) => (v.name, v.value),
                _ => (st->Assignment_target->Identifier_name, st->Assignment_value),
            };
            match evaluated(s, p, env, e, depth) {
                (Ok(x), after) => if st is Assignment && value_named(env, name) is None {
                    statement_run(s, p, env, st, depth).0 is Err
                } else {
                    statement_run(s, p, env, st, depth) matches (Ok((Ending::Normal, locals)), end)
                        && end == after && value_named(locals, name) == Some(x) && (other != name
                        ==> value_named(locals, other) == value_named(env, other))
                },
                (Err(error), after) => statement_run(s, p, env, st, depth) == (
                    Err::<(Ending, Values), ErrorView>(error),
                    after,
                ),
            }
        }),
{
    let (name, e) = match st {
        StmtView::Variable(v) => (v.name, v.value),
        _ => (st->Assignment_target->Identifier_name, st->Assignment_value),
    };
    if let (Ok(x), _) = evaluated(s, p, env, e, depth) {
        lemma_names_hold_their_values(env, name, x, other);
    }
}

/// A `return` leaves with the value of its expression, an expression by itself
/// changes no name, and `break` and `continue` leave as what they are.
pub proof fn lemma_statements_end_as_they_say(
    s: Setting,
    p: Progress,
    env: Values,
    e: ExprView,
    span: Span,
    depth: nat,
)
    ensures
        evaluated(s, p, env, e, depth) matches (Ok(x), after) ==> {
            &&& statement_run(s, p, env, StmtView::Return { value: Some(e), span }, depth) == (
                Ok::<(Ending, Values), ErrorView>((Ending::Return(x), env)),
                after,
            )
            &&& statement_run(s, p, env, StmtView::Expr { expression: e, span }, depth) == (
                Ok::<(Ending, Values), ErrorView>((Ending::Normal, env)),
                after,
            )
        },
        statement_run(s, p, env, StmtView::Return { value: None, span }, depth) == (
            Ok::<(Ending, Values), ErrorView>((Ending::Return(ValueView::Unit), env)),
            p,
        ),
        statement_run(s, p, env, StmtView::Break { span }, depth) == (
            Ok::<(Ending, Values), ErrorView>((Ending::Break, env)),
            p,
        ),
        statement_run(s, p, env, StmtView::Continue { span }, depth) == (
            Ok::<(Ending, Values), ErrorView>((Ending::Continue, env)),
            p,
        ),
{
}

// ---------------------------------------------------------------------------
// Expressions
// ---------------------------------------------------------------------------

/// A name stands for its value: that of a local, or else that of a global.
pub proof fn lemma_names_stand_for_their_values(
    s: Setting,
    p: Progress,
    env: Values,
    name: Seq<char>,
    span: Span,
    depth: nat,
)
    requires
        p.steps < s.limits.steps,
    ensures
        value_named(env, name) matches Some(x) ==> evaluated(
            s,
            p,
            env,
            ExprView::Identifier { name, span },
            depth,
        ).0 == Ok::<ValueView, ErrorView>(x),
        value_named(env, name) is None ==> (value_named(p.globals, name) matches Some(x)
            ==> evaluated(s, p, env, ExprView::Identifier { name, span }, depth).0 == Ok::<
            ValueView,
            ErrorView,
        >(x)),
{
}

/// The left operand comes first. `&&` and `||` look at the right one only where
/// the left one does not decide; the other operators always do.
pub proof fn lemma_operands_come_in_order(
    s: Setting,
    p: Progress,
    env: Values,
    left: ExprView,
    op: BinaryOp,
    right: ExprView,
    span: Span,
    depth: nat,
    a: ValueView,
    after: Progress,
)
    requires
        p.steps < s.limits.steps,
        evaluated(s, ticked(p), env, left, depth) == (Ok::<ValueView, ErrorView>(a), after),
    ensures
        ({
            let e = ExprView::Binary {
                left: Box::new(left),
                operator: op,
                right: Box::new(right),
                span,
            };
            let outcome = evaluated(s, p, env, e, depth);
            let next = evaluated(s, after, env, right, depth);
            match op {
                BinaryOp::LogicalAnd => a matches ValueView::Bool(x) ==> outcome == if x {
                    next
                } else {
                    (Ok(ValueView::Bool(false)), after)
                },
                BinaryOp::LogicalOr => a matches ValueView::Bool(x) ==> outcome == if x {
                    (Ok(ValueView::Bool(true)), after)
                } else {
                    next
                },
                _ => match next {
                    (Ok(b), last) => outcome == (binary_value(s.floats, op, a, b, span), last),
                    (Err(error), last) => outcome == (Err::<ValueView, ErrorView>(error), last),
                },
            }
        }),
{
}

/// A value at compile time as one at run time.
pub open spec fn as_run_time(value: ValueView) -> ops::ValueView {
    match value {
        ValueView::Bool(b) => ops::ValueView::Bool(b),
        ValueView::Integer(n) => ops::ValueView::Integer(n),
        ValueView::Float(x) => ops::ValueView::Float(x),
        _ => arbitrary(),
    }
}

proof fn lemma_wide_number(n: i128)
    ensures
        held(n as int, 128, true) == n,
{
    lemma_held_as_itself(n as int, 128, true);
}

proof fn lemma_low_of_shift(n: i128)
    requires
        0 <= n < 128,
    ensures
        low(n as int, 7) == n,
        low(n as int, 128) == n,
{
    reveal(low);
    vstd::arithmetic::power2::lemma2_to64();
    lemma_pow2_128();
    vstd::arithmetic::div_mod::lemma_small_mod(n as nat, 128);
    vstd::arithmetic::div_mod::lemma_small_mod(n as nat, vstd::arithmetic::power2::pow2(128));
}

proof fn lemma_low_tells_apart(a: i128, b: i128)
    ensures
        low(a as int, 128) == low(b as int, 128) <==> a == b,
        low(b as int, 128) == 0 <==> b == 0,
{
    reveal(low);
    lemma_pow2_128();
    let m = vstd::arithmetic::power2::pow2(128) as int;
    if a >= 0 {
        vstd::arithmetic::div_mod::lemma_small_mod(a as nat, m as nat);
    } else {
        vstd::arithmetic::div_mod::lemma_small_mod((a + m) as nat, m as nat);
        vstd::arithmetic::div_mod::lemma_mod_add_multiples_vanish(a as int, m);
    }
    if b >= 0 {
        vstd::arithmetic::div_mod::lemma_small_mod(b as nat, m as nat);
    } else {
        vstd::arithmetic::div_mod::lemma_small_mod((b + m) as nat, m as nat);
        vstd::arithmetic::div_mod::lemma_mod_add_multiples_vanish(b as int, m);
    }
}

/// Operators give at compile time what they give at run time on integers of 128
/// bits, for every amount of a shift that there is at run time. The least number
/// divided by minus one is left out: at run time that has no value.
pub proof fn lemma_operators_agree_with_run_time(
    m: FloatModel,
    op: BinaryOp,
    a: i128,
    b: i128,
    span: Span,
)
    requires
        op == BinaryOp::ShiftLeft || op == BinaryOp::ShiftRight ==> 0 <= b < 128,
        op != BinaryOp::LogicalAnd && op != BinaryOp::LogicalOr,
        op == BinaryOp::Divide || op == BinaryOp::Modulo ==> !(a == i128::MIN && b == -1),
    ensures
        match binary_value(m, op, ValueView::Integer(a), ValueView::Integer(b), span) {
            Ok(x) => ops::integer_binary(op, a as int, b as int, 128, true) == Ok::<
                ops::ValueView,
                ops::Error,
            >(as_run_time(x)),
            Err(_) => ops::integer_binary(op, a as int, b as int, 128, true) is Err,
        },
{
    lemma_wide_number(a);
    lemma_wide_number(b);
    lemma_low_tells_apart(a, b);
    if op == BinaryOp::ShiftLeft || op == BinaryOp::ShiftRight {
        lemma_low_of_shift(b);
    }
}

/// Prefix operators, too.
pub proof fn lemma_prefixes_agree_with_run_time(op: UnaryOp, x: ValueView, span: Span)
    requires
        x is Integer || x is Float || (x is Bool && op != UnaryOp::BitwiseNot),
    ensures
        match unary_value(op, x, span) {
            Ok(y) => ops::unary_of(op, as_run_time(x), 128, true) == Ok::<
                ops::ValueView,
                ops::Error,
            >(as_run_time(y)),
            Err(_) => ops::unary_of(op, as_run_time(x), 128, true) is Err,
        },
{
}

// ---------------------------------------------------------------------------
// What expansion writes
// ---------------------------------------------------------------------------

/// Whether a value can stand in a program as it is.
pub open spec fn can_be_written(value: ValueView) -> bool
    decreases value,
{
    match value {
        ValueView::Integer(_) => true,
        ValueView::Float(_) => true,
        ValueView::Bool(_) => true,
        ValueView::Array(values) => all_can_be_written(values),
        ValueView::Struct { fields, .. } => fields_can_be_written(fields),
        _ => false,
    }
}

pub open spec fn all_can_be_written(values: Seq<ValueView>) -> bool
    decreases values,
{
    forall|i: int| 0 <= i < values.len() ==> can_be_written(#[trigger] values[i])
}

pub open spec fn fields_can_be_written(fields: Values) -> bool
    decreases fields,
{
    forall|i: int| 0 <= i < fields.len() ==> can_be_written((#[trigger] fields[i]).1)
}

proof fn lemma_all_written(
    values: Seq<ValueView>,
    span: Span,
    hint: Option<TypeView>,
    i: int,
    before: Seq<ExprView>,
)
    requires
        0 <= i <= values.len(),
        before.len() == i,
    ensures
        all_emitted(values, span, hint, i, before) matches Ok(es) ==> es.len() == values.len() && (
        forall|k: int| 0 <= k < i ==> #[trigger] es[k] == before[k]) && forall|k: int|
            i <= k < values.len() ==> emitted(#[trigger] values[k], span, hint) == Ok::<
                ExprView,
                ErrorView,
            >(es[k]),
    decreases values.len() - i,
{
    if i < values.len() {
        if let Ok(e) = emitted(values[i], span, hint) {
            lemma_all_written(values, span, hint, i + 1, before.push(e));
            if let Ok(es) = all_emitted(values, span, hint, i, before) {
                assert(es[i] == before.push(e)[i]);
                assert forall|k: int| 0 <= k < i implies #[trigger] es[k] == before[k] by {
                    assert(es[k] == before.push(e)[k]);
                }
            }
        }
    }
}

proof fn lemma_fields_written(fields: Values, span: Span, i: int, before: Seq<StructInitView>)
    requires
        0 <= i <= fields.len(),
        before.len() == i,
    ensures
        fields_emitted(fields, span, i, before) matches Ok(inits) ==> inits.len() == fields.len()
            && (forall|k: int| 0 <= k < i ==> #[trigger] inits[k] == before[k]) && forall|k: int|
            i <= k < fields.len() ==> (#[trigger] inits[k]).name == fields[k].0 && emitted(
                fields[k].1,
                span,
                None,
            ) == Ok::<ExprView, ErrorView>(inits[k].value),
    decreases fields.len() - i,
{
    if i < fields.len() {
        if let Ok(value) = emitted(fields[i].1, span, None) {
            let more = before.push(StructInitView { name: fields[i].0, value, span });
            lemma_fields_written(fields, span, i + 1, more);
            if let Ok(inits) = fields_emitted(fields, span, i, before) {
                assert(inits[i] == more[i]);
                assert forall|k: int| 0 <= k < i implies #[trigger] inits[k] == before[k] by {
                    assert(inits[k] == more[k]);
                }
            }
        }
    }
}

/// What expansion writes for a value evaluates to that value.
pub proof fn lemma_written_values_read_back(
    s: Setting,
    p: Progress,
    env: Values,
    value: ValueView,
    span: Span,
    hint: Option<TypeView>,
    depth: nat,
)
    requires
        can_be_written(value),
    ensures
        emitted(value, span, hint) matches Ok(e) ==> (evaluated(s, p, env, e, depth) matches (
            Ok(x),
            _,
        ) ==> x == value),
    decreases value, 0int,
{
    if let Ok(e) = emitted(value, span, hint) {
        match value {
            ValueView::Array(values) => {
                let ty = match hint {
                    Some(ty) => ty,
                    None => TypeView::Array {
                        length: values.len() as u64,
                        element: Box::new(TypeView::Named("i32"@)),
                    },
                };
                let inner = match ty {
                    TypeView::Array { element, .. } => Some(*element),
                    _ => None,
                };
                lemma_all_written(values, span, inner, 0, Seq::empty());
                let es = e->ArrayLiteral_elements;
                let used = crate::expansion::consumed(ticked(p), es.len());
                assert(all_can_be_written(values));
                assert(values.take(0) =~= Seq::empty());
                lemma_lists_read_back(
                    s,
                    used,
                    env,
                    values,
                    es,
                    span,
                    inner,
                    0,
                    Seq::empty(),
                    depth,
                );
            },
            ValueView::Struct { fields, .. } => {
                lemma_fields_written(fields, span, 0, Seq::empty());
                let inits = e->StructLiteral_fields;
                let used = crate::expansion::consumed(ticked(p), inits.len());
                assert(fields_can_be_written(fields));
                assert(fields.take(0) =~= Seq::empty());
                lemma_fields_read_back(s, used, env, fields, inits, span, 0, Seq::empty(), depth);
            },
            _ => {},
        }
    }
}

proof fn lemma_lists_read_back(
    s: Setting,
    p: Progress,
    env: Values,
    values: Seq<ValueView>,
    es: Seq<ExprView>,
    span: Span,
    hint: Option<TypeView>,
    i: int,
    before: Seq<ValueView>,
    depth: nat,
)
    requires
        all_can_be_written(values),
        es.len() == values.len(),
        forall|k: int|
            0 <= k < values.len() ==> emitted(#[trigger] values[k], span, hint) == Ok::<
                ExprView,
                ErrorView,
            >(es[k]),
        0 <= i <= values.len(),
        before == values.take(i),
    ensures
        all_evaluated(s, p, env, es, i, before, depth) matches (Ok(all), _) ==> all == values,
    decreases values, values.len() - i,
{
    if i < values.len() {
        lemma_written_values_read_back(s, p, env, values[i], span, hint, depth);
        if let (Ok(x), after) = evaluated(s, p, env, es[i], depth) {
            assert(emitted(values[i], span, hint) == Ok::<ExprView, ErrorView>(es[i]));
            assert(before.push(x) =~= values.take(i + 1));
            lemma_lists_read_back(
                s,
                after,
                env,
                values,
                es,
                span,
                hint,
                i + 1,
                before.push(x),
                depth,
            );
        }
    } else {
        assert(values.take(i) =~= values);
    }
}

proof fn lemma_fields_read_back(
    s: Setting,
    p: Progress,
    env: Values,
    fields: Values,
    inits: Seq<StructInitView>,
    span: Span,
    i: int,
    before: Values,
    depth: nat,
)
    requires
        fields_can_be_written(fields),
        inits.len() == fields.len(),
        forall|k: int|
            0 <= k < fields.len() ==> (#[trigger] inits[k]).name == fields[k].0 && emitted(
                fields[k].1,
                span,
                None,
            ) == Ok::<ExprView, ErrorView>(inits[k].value),
        0 <= i <= fields.len(),
        before == fields.take(i),
    ensures
        inits_evaluated(s, p, env, inits, i, before, depth) matches (Ok(all), _) ==> all == fields,
    decreases fields, fields.len() - i,
{
    if i < fields.len() {
        assert(can_be_written(fields[i].1));
        lemma_written_values_read_back(s, p, env, fields[i].1, span, None, depth);
        assert(inits[i].name == fields[i].0);
        if let (Ok(x), after) = evaluated(s, p, env, inits[i].value, depth) {
            assert(before.push((inits[i].name, x)) =~= fields.take(i + 1));
            lemma_fields_read_back(
                s,
                after,
                env,
                fields,
                inits,
                span,
                i + 1,
                before.push((inits[i].name, x)),
                depth,
            );
        }
    } else {
        assert(fields.take(i) =~= fields);
    }
}

/// What is marked for compile time becomes an expression that evaluates to the
/// value it has.
pub proof fn lemma_marked_expressions_become_their_values(
    s: Setting,
    p: Progress,
    e: ExprView,
    span: Span,
    q: Progress,
    env: Values,
    depth: nat,
)
    ensures
        expanded(s, p, ExprView::Comptime { expression: Box::new(e), span }) matches (
            Ok(written),
            _,
        ) ==> (value_of(s, p, e) matches (Ok(value), _) && (can_be_written(value) ==> (evaluated(
            s,
            q,
            env,
            written,
            depth,
        ) matches (Ok(x), _) ==> x == value))),
{
    if let (Ok(value), _) = value_of(s, p, e) {
        if can_be_written(value) {
            lemma_written_values_read_back(s, q, env, value, span, None, depth);
        }
    }
}

} // verus!
