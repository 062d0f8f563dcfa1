//! The code that is generated does what the interpreter does.
use crate::arithmetic::{
    bits_of, is_width, lemma_bits_are_low, lemma_operations_compute, lemma_prefixes_compute,
    lemma_signed_bits, lemma_tests_compare,
};
use crate::ast::{BinaryOp, UnaryOp};
use crate::emission;
use crate::emission::{
    division_guarded, emitted, guarded, int_operated, int_operation, int_test, issue, local_of,
    logic_joined, next, number, operated, other_entered, unary_operated, Emission, Surroundings,
};
use crate::execution;
use crate::execution::{evaluated, Heap, Locals, World};
use crate::folding::lemma_held_low;
use crate::instructions::{
    CommandView, IntTest, LowBinary, LowType, LowUnary, OperandView, ValueView,
};
use crate::integers::{held, lemma_held_in_range, lemma_held_is_stable, lemma_pow2_128, low};
use crate::interpreter;
use crate::lexer::Span;
use crate::machine::{
    bits, gone_on, gone_to, lemma_steps_add_up, operand_value, operation_result, run, start_of,
    step, test_holds, truth, with_result, Next, State, Val,
};
use crate::ops;
use crate::soundness::{lemma_emitted, lemma_other_entered};
use crate::typed::{IntegerWidth, LocalId, ResolvedType, TypedExprView};
use crate::wiring::{extends, knows, sound, well_wired};
use vstd::arithmetic::power2::{lemma2_to64, lemma_pow2_pos, pow2};
use vstd::prelude::*;

verus! {

// ---------------------------------------------------------------------------
// Values
// ---------------------------------------------------------------------------

/// Whether a type is that of truth values, or of integers of a width that the
/// machine has.
pub open spec fn is_scalar(ty: ResolvedType) -> bool {
    match ty {
        ResolvedType::Bool => true,
        ResolvedType::Integer { width, .. } => width matches IntegerWidth::Bits(n) && is_width(
            n as nat,
        ),
        _ => false,
    }
}

/// How many bits a value of a type has.
pub open spec fn width_of(ty: ResolvedType) -> nat {
    match ty {
        ResolvedType::Integer { width: IntegerWidth::Bits(n), .. } => n as nat,
        _ => 1,
    }
}

/// Whether the machine holds a value of a type.
pub open spec fn holds(v: interpreter::ValueView, ty: ResolvedType, val: Val) -> bool {
    match ty {
        ResolvedType::Bool => v matches interpreter::ValueView::Bool(b) && val == truth(b),
        ResolvedType::Integer { width: IntegerWidth::Bits(n), signed } => v matches
            interpreter::ValueView::Int(x) && x == held(x as int, n as nat, signed) && val
            == bits_of(x as int, n as nat),
        _ => false,
    }
}

/// The types of locals, by identity.
pub type LocalTypes = Map<u32, ResolvedType>;

/// Whether an expression computes with integers and truth values of locals.
pub open spec fn is_simple(types: LocalTypes, e: TypedExprView) -> bool
    decreases e,
{
    match e {
        TypedExprView::Integer { ty, .. } => is_scalar(ty) && ty is Integer,
        TypedExprView::Bool { ty, .. } => ty == ResolvedType::Bool,
        TypedExprView::Load { id, ty, .. } => is_scalar(ty) && types.dom().contains(id.0)
            && types[id.0] == ty,
        TypedExprView::Unary { operator, operand, ty, .. } => {
            &&& is_simple(types, *operand)
            &&& (*operand).ty() == ty
            &&& match operator {
                UnaryOp::Negate => ty is Integer,
                UnaryOp::BitwiseNot => ty is Integer,
                UnaryOp::Not => ty == ResolvedType::Bool,
                _ => false,
            }
        },
        TypedExprView::Binary { left, operator, right, ty, operand_type, .. } => {
            &&& is_simple(types, *left)
            &&& is_simple(types, *right)
            &&& (*left).ty() == operand_type
            &&& (*right).ty() == operand_type
            &&& match operator {
                BinaryOp::LogicalAnd => operand_type == ResolvedType::Bool && ty
                    == ResolvedType::Bool,
                BinaryOp::LogicalOr => operand_type == ResolvedType::Bool && ty
                    == ResolvedType::Bool,
                BinaryOp::Equal => ty == ResolvedType::Bool,
                BinaryOp::NotEqual => ty == ResolvedType::Bool,
                BinaryOp::Less => operand_type is Integer && ty == ResolvedType::Bool,
                BinaryOp::LessEqual => operand_type is Integer && ty == ResolvedType::Bool,
                BinaryOp::Greater => operand_type is Integer && ty == ResolvedType::Bool,
                BinaryOp::GreaterEqual => operand_type is Integer && ty == ResolvedType::Bool,
                _ => operand_type is Integer && ty == operand_type,
            }
        },
        _ => false,
    }
}

pub proof fn lemma_simple_is_scalar(types: LocalTypes, e: TypedExprView)
    requires
        is_simple(types, e),
    ensures
        is_scalar(e.ty()),
    decreases e,
{
    match e {
        TypedExprView::Unary { operand, .. } => {
            lemma_simple_is_scalar(types, *operand);
        },
        TypedExprView::Binary { left, right, .. } => {
            lemma_simple_is_scalar(types, *left);
            lemma_simple_is_scalar(types, *right);
        },
        _ => {},
    }
}

/// Whether no signed division in an expression divides the least number by minus
/// one.
pub open spec fn divides_safely(
    w: World,
    heap: Heap,
    env: Locals,
    e: TypedExprView,
    depth: nat,
) -> bool
    decreases e,
{
    match e {
        TypedExprView::Unary { operand, .. } => divides_safely(w, heap, env, *operand, depth),
        TypedExprView::Binary { left, operator, right, operand_type, .. } => {
            &&& divides_safely(w, heap, env, *left, depth)
            &&& divides_safely(w, heap, env, *right, depth)
            &&& (operator == BinaryOp::Divide || operator == BinaryOp::Modulo) && (
            operand_type matches ResolvedType::Integer { signed, .. } && signed) ==> !(evaluated(
                w,
                heap,
                env,
                *left,
                depth,
            ) matches Ok((interpreter::ValueView::Int(a), _)) && a == -pow2(
                (width_of(operand_type) - 1) as nat,
            ) && (evaluated(w, heap, env, *right, depth) matches Ok((
                interpreter::ValueView::Int(b),
                _,
            )) && b == -1))
        },
        _ => true,
    }
}

// ---------------------------------------------------------------------------
// Places
// ---------------------------------------------------------------------------

/// Whether every command that goes on in a block stands behind the block.
pub open spec fn behind(cs: Seq<CommandView>) -> bool {
    forall|i: int|
        0 <= i < cs.len() ==> (#[trigger] cs[i] matches CommandView::Position { block }
            ==> block < i)
}

pub open spec fn is_ready(s: Emission) -> bool {
    behind(s.commands) && 0 <= s.block < s.commands.len()
}

/// Whether a run has come to where the commands of `s` end.
pub open spec fn stands(cs: Seq<CommandView>, s: Emission, st: State) -> bool {
    &&& is_ready(s)
    &&& s.commands.is_prefix_of(cs)
    &&& cs.len() <= usize::MAX
    &&& st.pc == s.commands.len()
    &&& st.block == s.block
}

/// Whether an operand is no result, or that of one of the first `n` commands.
pub open spec fn is_below(o: OperandView, n: int) -> bool {
    o matches OperandView::Register(r) ==> r < n
}

/// Whether what is stored stays, and what all commands gave but those from `n`
/// up to where the run has come.
pub open spec fn keeps(st: State, end: State, n: int) -> bool {
    &&& end.rooms == st.rooms
    &&& end.arguments == st.arguments
    &&& forall|r: int| r < n || r >= end.pc ==> #[trigger] end.results[r] == st.results[r]
}

/// Whether each local is stored where the commands think it is.
pub open spec fn locals_hold(
    types: LocalTypes,
    env: Locals,
    locals: Seq<(LocalId, OperandView, LowType)>,
    st: State,
) -> bool {
    forall|id: LocalId|
        types.dom().contains(id.0) && (#[trigger] local_of(locals, locals.len() as int, id)
            matches Some((pointer, low)) && env.dom().contains(id.0)) ==> is_stored(
            types,
            env,
            locals,
            st,
            id,
        )
}

pub open spec fn is_stored(
    types: LocalTypes,
    env: Locals,
    locals: Seq<(LocalId, OperandView, LowType)>,
    st: State,
    id: LocalId,
) -> bool {
    local_of(locals, locals.len() as int, id) matches Some((OperandView::Register(r), low)) && {
        &&& low == LowType::Int(width_of(types[id.0]) as u32)
        &&& st.results[r as int] == (Val::Address { room: r as int, path: Seq::empty() })
        &&& holds(env[id.0], types[id.0], st.rooms[r as int])
    }
}

pub proof fn lemma_operand_stays(st: State, end: State, o: OperandView, n: int)
    requires
        keeps(st, end, n),
        is_below(o, n),
    ensures
        operand_value(end, o) == operand_value(st, o),
{
}

pub proof fn lemma_locals_stay(
    types: LocalTypes,
    env: Locals,
    locals: Seq<(LocalId, OperandView, LowType)>,
    st: State,
    end: State,
)
    requires
        locals_hold(types, env, locals, st),
        keeps(st, end, st.pc),
        stays_out(locals, st.pc, end.pc),
    ensures
        locals_hold(types, env, locals, end),
{
    assert forall|id: LocalId|
        types.dom().contains(id.0) && (#[trigger] local_of(locals, locals.len() as int, id) matches
            Some((pointer, low)) && env.dom().contains(id.0)) implies is_stored(
        types,
        env,
        locals,
        end,
        id,
    ) by {
        assert(is_stored(types, env, locals, st, id));
        lemma_local_of(locals, locals.len() as int, id);
    }
}

/// A local that is found is one of the locals.
pub proof fn lemma_local_of(locals: Seq<(LocalId, OperandView, LowType)>, n: int, id: LocalId)
    requires
        0 <= n <= locals.len(),
    ensures
        local_of(locals, n, id) matches Some((pointer, low)) ==> exists|i: int|
            0 <= i < n && #[trigger] locals[i] == (id, pointer, low),
    decreases n,
{
    if n > 0 && locals[n - 1].0 != id {
        lemma_local_of(locals, n - 1, id);
    }
}

/// Whether no local is the result of one of the commands from `a` up to `b`.
pub open spec fn stays_out(
    locals: Seq<(LocalId, OperandView, LowType)>,
    a: int,
    b: int,
) -> bool {
    forall|i: int|
        0 <= i < locals.len() ==> ((#[trigger] locals[i]).1 matches OperandView::Register(r) ==> r
            < a || r >= b)
}

pub proof fn lemma_sound_locals(s: Emission, b: int)
    requires
        sound(s),
    ensures
        stays_out(s.locals, s.commands.len() as int, b),
{
    reveal(sound);
    assert forall|i: int| 0 <= i < s.locals.len() implies ((#[trigger] s.locals[i]).1 matches
        OperandView::Register(r) ==> r < s.commands.len()) by {
        assert(crate::wiring::known(s.commands, s.locals[i].1));
    }
}

pub proof fn lemma_start(cs: Seq<CommandView>, block: int, i: int, k: int)
    requires
        0 <= i <= k < cs.len(),
        cs[k] matches CommandView::Position { block: b } && b == block,
        forall|j: int|
            i <= j < k ==> !(#[trigger] cs[j] matches CommandView::Position { block: b } && b
                == block),
    ensures
        start_of(cs, block, i) == k + 1,
    decreases k - i,
{
    if i < k {
        assert(!(cs[i] matches CommandView::Position { block: b } && b == block));
        lemma_start(cs, block, i + 1, k);
    }
}

/// A prefix of a prefix is one.
pub proof fn lemma_prefixes(a: Seq<CommandView>, b: Seq<CommandView>, c: Seq<CommandView>)
    requires
        a.is_prefix_of(b),
        b.is_prefix_of(c),
    ensures
        a.is_prefix_of(c),
{
    assert forall|i: int| 0 <= i < a.len() implies a[i] == c[i] by {
        assert(a[i] == b[i]);
    }
}

// ---------------------------------------------------------------------------
// Single commands
// ---------------------------------------------------------------------------

/// Whether a command goes on to the next one with a result.
pub open spec fn goes_on_with(cs: Seq<CommandView>, st: State, v: Val) -> bool {
    step(cs, st) == Next::Go(with_result(st, v))
}

/// One command that has a result.
proof fn lemma_one(cs: Seq<CommandView>, s: Emission, c: CommandView, st: State, v: Val)
    requires
        stands(cs, s, st),
        issue(s, c).commands.is_prefix_of(cs),
        !(c is Position),
        goes_on_with(cs, st, v),
    ensures
        run(cs, st, 1) == Next::Go(with_result(st, v)),
        stands(cs, issue(s, c), with_result(st, v)),
        keeps(st, with_result(st, v), st.pc),
        operand_value(with_result(st, v), next(s)) == v,
{
    reveal_with_fuel(run, 2);
    let t = issue(s, c);
    assert forall|i: int| 0 <= i < t.commands.len() implies (#[trigger] t.commands[i] matches
        CommandView::Position { block } ==> block < i) by {
        if i < s.commands.len() {
            assert(t.commands[i] == s.commands[i]);
        }
    }
}

pub proof fn lemma_at(cs: Seq<CommandView>, s: Emission, c: CommandView, st: State)
    requires
        stands(cs, s, st),
        issue(s, c).commands.is_prefix_of(cs),
    ensures
        cs[st.pc] == c,
        0 <= st.pc < cs.len(),
{
    let t = issue(s, c);
    assert(t.commands[s.commands.len() as int] == c);
    assert(t.commands[s.commands.len() as int] == cs[s.commands.len() as int]);
}

// ---------------------------------------------------------------------------
// Guards
// ---------------------------------------------------------------------------

proof fn lemma_guarded_shape(s: Emission, condition: OperandView)
    requires
        is_ready(s),
    ensures
        ({
            let t = guarded(s, condition);
            let n = s.commands.len() as int;
            &&& s.commands.is_prefix_of(t.commands)
            &&& t.commands.len() == n + 7
            &&& t.locals == s.locals
            &&& t.block == n + 1
            &&& t.commands[n] is Append
            &&& t.commands[n + 1] is Append
            &&& t.commands[n + 2] == (CommandView::Branch {
                condition,
                yes: (n + 1) as usize,
                no: n as usize,
            })
            &&& t.commands[n + 3] == (CommandView::Position { block: n as usize })
            &&& t.commands[n + 4] == CommandView::Trap
            &&& t.commands[n + 5] == CommandView::Unreachable
            &&& t.commands[n + 6] == (CommandView::Position { block: (n + 1) as usize })
            &&& n + 7 <= usize::MAX ==> is_ready(t)
        }),
{
    let t = guarded(s, condition);
    let n = s.commands.len() as int;
    assert forall|i: int| 0 <= i < n implies #[trigger] t.commands[i] == s.commands[i] by {}
    if n + 7 <= usize::MAX {
        assert forall|i: int| 0 <= i < t.commands.len() implies (#[trigger] t.commands[i] matches
            CommandView::Position { block } ==> block < i) by {
            if i < n {
                assert(t.commands[i] == s.commands[i]);
            } else {
                assert(i == n || i == n + 1 || i == n + 2 || i == n + 3 || i == n + 4 || i == n + 5
                    || i == n + 6);
            }
        }
    }
}

/// A guard lets a run on where its condition holds, and stops it where not.
proof fn lemma_guard_runs(
    cs: Seq<CommandView>,
    s: Emission,
    condition: OperandView,
    st: State,
    c: bool,
) -> (end: State)
    requires
        stands(cs, s, st),
        guarded(s, condition).commands.is_prefix_of(cs),
        operand_value(st, condition) == truth(c),
        is_below(condition, st.pc),
    ensures
        c ==> run(cs, st, 3) == Next::Go(end) && stands(cs, guarded(s, condition), end) && keeps(
            st,
            end,
            st.pc,
        ) && end.results == st.results,
        !c ==> run(cs, st, 4) == Next::Trapped,
{
    lemma_guarded_shape(s, condition);
    let t = guarded(s, condition);
    let n = s.commands.len() as int;
    assert forall|i: int| 0 <= i < t.commands.len() implies cs[i] == #[trigger] t.commands[i] by {}
    assert(cs[n] == t.commands[n] && cs[n + 1] == t.commands[n + 1]);
    assert(cs[n + 2] == t.commands[n + 2] && cs[n + 3] == t.commands[n + 3]);
    assert(cs[n + 4] == t.commands[n + 4] && cs[n + 6] == t.commands[n + 6]);
    assert(cs[n + 5] == t.commands[n + 5]);
    let a = gone_on(st);
    let b = gone_on(a);
    assert(step(cs, st) == Next::Go(a));
    assert(step(cs, a) == Next::Go(b));
    assert(operand_value(b, condition) == operand_value(st, condition));
    let goal = if c {
        n + 1
    } else {
        n
    };
    let k = if c {
        n + 6
    } else {
        n + 3
    };
    assert forall|j: int| 0 <= j < k implies !(#[trigger] cs[j] matches CommandView::Position {
        block: x,
    } && x == goal) by {
        if j < n {
            assert(t.commands[j] == s.commands[j]);
            assert(cs[j] == s.commands[j]);
        } else {
            assert(j == n || j == n + 1 || j == n + 2 || j == n + 3 || j == n + 4 || j == n + 5);
        }
    }
    lemma_start(cs, goal, 0, k);
    let end = gone_to(cs, b, goal);
    assert(step(cs, b) == Next::Go(end));
    reveal_with_fuel(run, 5);
    assert(run(cs, st, 3) == Next::Go(end));
    if !c {
        assert(end.pc == n + 4);
        assert(step(cs, end) == Next::Trapped);
        lemma_steps_add_up(cs, st, 3, 1);
        assert(run(cs, end, 1) == Next::Trapped);
    }
    end
}

// ---------------------------------------------------------------------------
// Operators
// ---------------------------------------------------------------------------

pub proof fn lemma_issue_shape(s: Emission, c: CommandView)
    requires
        is_ready(s),
        !(c is Position),
    ensures
        is_ready(issue(s, c)),
        s.commands.is_prefix_of(issue(s, c).commands),
        issue(s, c).commands.len() == s.commands.len() + 1,
        issue(s, c).locals == s.locals,
        issue(s, c).block == s.block,
{
    let t = issue(s, c);
    assert forall|i: int| 0 <= i < t.commands.len() implies (#[trigger] t.commands[i] matches
        CommandView::Position { block } ==> block < i) by {
        if i < s.commands.len() {
            assert(t.commands[i] == s.commands[i]);
        }
    }
}

/// Whether the commands of `t` behind those of `s` go on only in new blocks.
pub open spec fn enters_new(s: Emission, t: Emission) -> bool {
    forall|i: int|
        s.commands.len() <= i < t.commands.len() ==> (#[trigger] t.commands[i] matches
            CommandView::Position { block } ==> block >= s.commands.len())
}

/// Whether the step from `s` to `t` adds commands and leaves the locals.
pub open spec fn leads(s: Emission, t: Emission) -> bool {
    &&& s.commands.is_prefix_of(t.commands)
    &&& t.locals == s.locals
    &&& t.commands.len() <= usize::MAX ==> is_ready(t) && enters_new(s, t)
    &&& t.block == s.block || t.block >= s.commands.len()
}

pub proof fn lemma_leads(s: Emission, t: Emission, u: Emission)
    requires
        leads(s, t),
        leads(t, u),
    ensures
        leads(s, u),
{
    lemma_prefixes(s.commands, t.commands, u.commands);
    if u.commands.len() <= usize::MAX {
        assert forall|i: int| s.commands.len() <= i < u.commands.len() implies (
        #[trigger] u.commands[i] matches CommandView::Position { block } ==> block
            >= s.commands.len()) by {
            if i < t.commands.len() {
                assert(u.commands[i] == t.commands[i]);
            }
        }
    }
}

pub open spec fn scalar_val(v: ops::ValueView, width: nat) -> Val {
    match v {
        ops::ValueView::Integer(n) => bits_of(n as int, width),
        ops::ValueView::Bool(b) => truth(b),
        _ => Val::Other,
    }
}

proof fn lemma_division_shape(
    s: Emission,
    a: OperandView,
    b: OperandView,
    width: u32,
    signed: bool,
)
    requires
        is_ready(s),
        division_guarded(s, a, b, width, signed).commands.len() <= usize::MAX,
    ensures
        leads(s, division_guarded(s, a, b, width, signed)),
{
    let c1 = CommandView::Compare {
        test: IntTest::NotEqual,
        left: b,
        right: number(0, width),
        name: "div.nonzero"@,
    };
    lemma_issue_shape(s, c1);
    let s0 = issue(s, c1);
    lemma_guarded_shape(s0, next(s));
    let s1 = guarded(s0, next(s));
    lemma_prefixes(s.commands, s0.commands, s1.commands);
    if signed {
        let t = division_guarded(s, a, b, width, signed);
        let one = number(1, width);
        let far = number(
            if width == 0 {
                0
            } else {
                (width - 1) as u64
            },
            width,
        );
        let c2 = CommandView::Binary {
            operation: LowBinary::ShiftLeft,
            left: one,
            right: far,
            name: "min"@,
        };
        let s2 = issue(s1, c2);
        let c3 = CommandView::Compare {
            test: IntTest::Equal,
            left: a,
            right: next(s1),
            name: "ismin"@,
        };
        let s3 = issue(s2, c3);
        let c4 = CommandView::Compare {
            test: IntTest::Equal,
            left: b,
            right: OperandView::AllOnes { bits: width },
            name: "isneg"@,
        };
        let s4 = issue(s3, c4);
        let c5 = CommandView::Binary {
            operation: LowBinary::And,
            left: next(s2),
            right: next(s3),
            name: "overflow"@,
        };
        let s5 = issue(s4, c5);
        let c6 = CommandView::Unary { operation: LowUnary::Not, operand: next(s4), name: "safe"@ };
        let s6 = issue(s5, c6);
        assert(t == guarded(s6, next(s5)));
        assert(s6.commands.len() == s1.commands.len() + 5);
        assert(t.commands.len() == s6.commands.len() + 7);
        lemma_issue_shape(s1, c2);
        lemma_issue_shape(s2, c3);
        lemma_issue_shape(s3, c4);
        lemma_issue_shape(s4, c5);
        lemma_issue_shape(s5, c6);
        lemma_guarded_shape(s6, next(s5));
        lemma_prefixes(s.commands, s1.commands, s2.commands);
        lemma_prefixes(s.commands, s2.commands, s3.commands);
        lemma_prefixes(s.commands, s3.commands, s4.commands);
        lemma_prefixes(s.commands, s4.commands, s5.commands);
        lemma_prefixes(s.commands, s5.commands, s6.commands);
        lemma_prefixes(s.commands, s6.commands, t.commands);
    }
}

proof fn lemma_one_bit(p: bool, q: bool)
    ensures
        operation_result(LowBinary::And, 1, truth(p)->Bits_value, truth(q)->Bits_value) == Some(
            truth(p && q),
        ),
        bits(1, -1 - truth(p)->Bits_value) == truth(!p),
{
    lemma2_to64();
    let x: u128 = if p {
        1
    } else {
        0
    };
    let y: u128 = if q {
        1
    } else {
        0
    };
    assert(1u128 & 1u128 == 1u128) by (bit_vector);
    assert(1u128 & 0u128 == 0u128) by (bit_vector);
    assert(0u128 & 1u128 == 0u128) by (bit_vector);
    assert(0u128 & 0u128 == 0u128) by (bit_vector);
    assert(pow2(1) == 2);
}

proof fn lemma_width_facts(width: nat)
    requires
        is_width(width),
    ensures
        width < pow2(width),
        pow2(width) == 2 * pow2((width - 1) as nat),
        bits(width, width as int) == (Val::Bits { width, value: width }),
        bits(width, (width - 1) as int) == (Val::Bits { width, value: (width - 1) as nat }),
        bits(width, 0) == (Val::Bits { width, value: 0 }),
        bits(width, 1) == (Val::Bits { width, value: 1 }),
        bits(width, -1) == (Val::Bits { width, value: (pow2(width) - 1) as nat }),
        bits(width, pow2((width - 1) as nat) as int) == (Val::Bits {
            width,
            value: pow2((width - 1) as nat),
        }),
{
    lemma2_to64();
    lemma_pow2_128();
    vstd::arithmetic::power2::lemma_pow2_unfold(width);
    lemma_pow2_pos((width - 1) as nat);
    assert(width < pow2(width));
    let m = pow2(width) as int;
    vstd::arithmetic::div_mod::lemma_small_mod(width, m as nat);
    vstd::arithmetic::div_mod::lemma_small_mod((width - 1) as nat, m as nat);
    vstd::arithmetic::div_mod::lemma_small_mod(0, m as nat);
    vstd::arithmetic::div_mod::lemma_small_mod(1, m as nat);
    vstd::arithmetic::div_mod::lemma_small_mod(pow2((width - 1) as nat), m as nat);
    vstd::arithmetic::div_mod::lemma_small_mod((m - 1) as nat, m as nat);
    vstd::arithmetic::div_mod::lemma_mod_add_multiples_vanish(-1, m);
}

/// A run passes the checks before a division where there is a quotient, and
/// stops at them where the divisor is zero.
proof fn lemma_division_runs(
    cs: Seq<CommandView>,
    s: Emission,
    a: OperandView,
    b: OperandView,
    width: u32,
    signed: bool,
    st: State,
    x: i128,
    y: i128,
) -> (r: (nat, State))
    requires
        stands(cs, s, st),
        division_guarded(s, a, b, width, signed).commands.is_prefix_of(cs),
        is_width(width as nat),
        operand_value(st, a) == bits_of(x as int, width as nat),
        operand_value(st, b) == bits_of(y as int, width as nat),
        is_below(a, st.pc),
        is_below(b, st.pc),
        signed ==> !(held(x as int, width as nat, true) == -pow2((width - 1) as nat) && held(
            y as int,
            width as nat,
            true,
        ) == -1),
    ensures
        low(y as int, width as nat) == 0 ==> run(cs, st, r.0) == Next::Trapped,
        low(y as int, width as nat) != 0 ==> run(cs, st, r.0) == Next::Go(r.1) && stands(
            cs,
            division_guarded(s, a, b, width, signed),
            r.1,
        ) && keeps(st, r.1, st.pc),
{
    let w = width as nat;
    let t = division_guarded(s, a, b, width, signed);
    lemma_division_shape(s, a, b, width, signed);
    lemma_width_facts(w);
    lemma_bits_are_low(x as int, w);
    lemma_bits_are_low(y as int, w);
    let c1 = CommandView::Compare {
        test: IntTest::NotEqual,
        left: b,
        right: number(0, width),
        name: "div.nonzero"@,
    };
    let s0 = issue(s, c1);
    let s1 = guarded(s0, next(s));
    lemma_issue_shape(s, c1);
    lemma_guarded_shape(s0, next(s));
    if !signed {
        assert(t == s1);
    }
    lemma_signed_prefix(s1, a, b, width);
    assert(s1.commands.is_prefix_of(t.commands));
    lemma_prefixes(s1.commands, t.commands, cs);
    lemma_prefixes(s0.commands, s1.commands, cs);
    lemma_at(cs, s, c1, st);
    let some = low(y as int, w) != 0;
    lemma_one(cs, s, c1, st, truth(some));
    let st0 = with_result(st, truth(some));
    let st1 = lemma_guard_runs(cs, s0, next(s), st0, some);
    if !some {
        lemma_steps_add_up(cs, st, 1, 4);
        (5, st1)
    } else {
        lemma_steps_add_up(cs, st, 1, 3);
        assert(keeps(st, st1, st.pc));
        if !signed {
            (4, st1)
        } else {
            let (n, end) = lemma_overflow_runs(cs, s1, a, b, width, st1, x, y);
            lemma_steps_add_up(cs, st, 4, n);
            (4 + n, end)
        }
    }
}

/// The check that a quotient is not too large.
spec fn overflow_guarded(s1: Emission, a: OperandView, b: OperandView, width: u32) -> Emission {
    let s2 = issue(
        s1,
        CommandView::Binary {
            operation: LowBinary::ShiftLeft,
            left: number(1, width),
            right: number(
                if width == 0 {
                    0
                } else {
                    (width - 1) as u64
                },
                width,
            ),
            name: "min"@,
        },
    );
    let s3 = issue(
        s2,
        CommandView::Compare { test: IntTest::Equal, left: a, right: next(s1), name: "ismin"@ },
    );
    let s4 = issue(
        s3,
        CommandView::Compare {
            test: IntTest::Equal,
            left: b,
            right: OperandView::AllOnes { bits: width },
            name: "isneg"@,
        },
    );
    let s5 = issue(
        s4,
        CommandView::Binary {
            operation: LowBinary::And,
            left: next(s2),
            right: next(s3),
            name: "overflow"@,
        },
    );
    let s6 = issue(
        s5,
        CommandView::Unary { operation: LowUnary::Not, operand: next(s4), name: "safe"@ },
    );
    guarded(s6, next(s5))
}

proof fn lemma_signed_prefix(
    s1: Emission,
    a: OperandView,
    b: OperandView,
    width: u32,
)
    requires
        is_ready(s1),
    ensures
        s1.commands.is_prefix_of(overflow_guarded(s1, a, b, width).commands),
        s1.commands.is_prefix_of(s1.commands),
{
    let t = overflow_guarded(s1, a, b, width);
    assert forall|i: int| 0 <= i < s1.commands.len() implies #[trigger] t.commands[i]
        == s1.commands[i] by {}
}

proof fn lemma_overflow_runs(
    cs: Seq<CommandView>,
    s1: Emission,
    a: OperandView,
    b: OperandView,
    width: u32,
    st: State,
    x: i128,
    y: i128,
) -> (r: (nat, State))
    requires
        stands(cs, s1, st),
        overflow_guarded(s1, a, b, width).commands.is_prefix_of(cs),
        is_width(width as nat),
        operand_value(st, a) == bits_of(x as int, width as nat),
        operand_value(st, b) == bits_of(y as int, width as nat),
        is_below(a, st.pc),
        is_below(b, st.pc),
        !(held(x as int, width as nat, true) == -pow2((width - 1) as nat) && held(
            y as int,
            width as nat,
            true,
        ) == -1),
    ensures
        run(cs, st, r.0) == Next::Go(r.1),
        stands(cs, overflow_guarded(s1, a, b, width), r.1),
        keeps(st, r.1, st.pc),
{
    let w = width as nat;
    let t = overflow_guarded(s1, a, b, width);
    lemma_width_facts(w);
    lemma_bits_are_low(x as int, w);
    lemma_bits_are_low(y as int, w);
    lemma_signed_bits(x as int, w);
    lemma_signed_bits(y as int, w);
    let c2 = CommandView::Binary {
        operation: LowBinary::ShiftLeft,
        left: number(1, width),
        right: number((width - 1) as u64, width),
        name: "min"@,
    };
    let s2 = issue(s1, c2);
    let c3 = CommandView::Compare {
        test: IntTest::Equal,
        left: a,
        right: next(s1),
        name: "ismin"@,
    };
    let s3 = issue(s2, c3);
    let c4 = CommandView::Compare {
        test: IntTest::Equal,
        left: b,
        right: OperandView::AllOnes { bits: width },
        name: "isneg"@,
    };
    let s4 = issue(s3, c4);
    let c5 = CommandView::Binary {
        operation: LowBinary::And,
        left: next(s2),
        right: next(s3),
        name: "overflow"@,
    };
    let s5 = issue(s4, c5);
    let c6 = CommandView::Unary { operation: LowUnary::Not, operand: next(s4), name: "safe"@ };
    let s6 = issue(s5, c6);
    assert(t == guarded(s6, next(s5)));
    lemma_issue_shape(s1, c2);
    lemma_issue_shape(s2, c3);
    lemma_issue_shape(s3, c4);
    lemma_issue_shape(s4, c5);
    lemma_issue_shape(s5, c6);
    lemma_guarded_shape(s6, next(s5));
    lemma_prefixes(s6.commands, t.commands, cs);
    lemma_prefixes(s5.commands, s6.commands, cs);
    lemma_prefixes(s4.commands, s5.commands, cs);
    lemma_prefixes(s3.commands, s4.commands, cs);
    lemma_prefixes(s2.commands, s3.commands, cs);
    let least = Val::Bits { width: w, value: pow2((w - 1) as nat) };
    lemma_at(cs, s1, c2, st);
    assert(1 * pow2((w - 1) as nat) == pow2((w - 1) as nat));
    lemma_one(cs, s1, c2, st, least);
    let st2 = with_result(st, least);
    let p = low(x as int, w) == pow2((w - 1) as nat);
    lemma_at(cs, s2, c3, st2);
    lemma_operand_stays(st, st2, a, st.pc);
    lemma_one(cs, s2, c3, st2, truth(p));
    let st3 = with_result(st2, truth(p));
    let q = low(y as int, w) == pow2(w) - 1;
    lemma_at(cs, s3, c4, st3);
    lemma_operand_stays(st, st3, b, st.pc);
    lemma_one(cs, s3, c4, st3, truth(q));
    let st4 = with_result(st3, truth(q));
    lemma_at(cs, s4, c5, st4);
    lemma_one_bit(p, q);
    lemma_one_bit(p && q, q);
    assert(operand_value(st4, next(s2)) == truth(p));
    assert(operand_value(st4, next(s3)) == truth(q));
    lemma_one(cs, s4, c5, st4, truth(p && q));
    let st5 = with_result(st4, truth(p && q));
    lemma_at(cs, s5, c6, st5);
    assert(operand_value(st5, next(s4)) == truth(p && q));
    lemma_one(cs, s5, c6, st5, truth(!(p && q)));
    let st6 = with_result(st5, truth(!(p && q)));
    assert(!(p && q));
    let end = lemma_guard_runs(cs, s6, next(s5), st6, true);
    lemma_steps_add_up(cs, st, 1, 1);
    lemma_steps_add_up(cs, st, 2, 1);
    lemma_steps_add_up(cs, st, 3, 1);
    lemma_steps_add_up(cs, st, 4, 1);
    lemma_steps_add_up(cs, st, 5, 3);
    (8, end)
}

/// The check that a shift is not too far.
spec fn shift_guarded(s: Emission, b: OperandView, limit: u64, width: u32) -> Emission {
    guarded(
        issue(
            s,
            CommandView::Compare {
                test: IntTest::LessUnsigned,
                left: b,
                right: number(limit, width),
                name: "shift.valid"@,
            },
        ),
        next(s),
    )
}

proof fn lemma_shift_shape(s: Emission, b: OperandView, limit: u64, width: u32)
    requires
        is_ready(s),
    ensures
        leads(s, shift_guarded(s, b, limit, width)),
{
    let c = CommandView::Compare {
        test: IntTest::LessUnsigned,
        left: b,
        right: number(limit, width),
        name: "shift.valid"@,
    };
    lemma_issue_shape(s, c);
    lemma_guarded_shape(issue(s, c), next(s));
    lemma_prefixes(
        s.commands,
        issue(s, c).commands,
        shift_guarded(s, b, limit, width).commands,
    );
}

proof fn lemma_shift_runs(
    cs: Seq<CommandView>,
    s: Emission,
    b: OperandView,
    width: u32,
    st: State,
    y: i128,
) -> (r: (nat, State))
    requires
        stands(cs, s, st),
        shift_guarded(s, b, width as u64, width).commands.is_prefix_of(cs),
        is_width(width as nat),
        operand_value(st, b) == bits_of(y as int, width as nat),
        is_below(b, st.pc),
    ensures
        low(y as int, width as nat) >= width ==> run(cs, st, r.0) == Next::Trapped,
        low(y as int, width as nat) < width ==> run(cs, st, r.0) == Next::Go(r.1) && stands(
            cs,
            shift_guarded(s, b, width as u64, width),
            r.1,
        ) && keeps(st, r.1, st.pc),
{
    let w = width as nat;
    let limit = width as u64;
    let c = CommandView::Compare {
        test: IntTest::LessUnsigned,
        left: b,
        right: number(limit, width),
        name: "shift.valid"@,
    };
    let s0 = issue(s, c);
    let t = shift_guarded(s, b, limit, width);
    lemma_width_facts(w);
    lemma_bits_are_low(y as int, w);
    lemma_issue_shape(s, c);
    lemma_guarded_shape(s0, next(s));
    lemma_prefixes(s0.commands, t.commands, cs);
    lemma_at(cs, s, c, st);
    let fine = low(y as int, w) < width;
    lemma_one(cs, s, c, st, truth(fine));
    let st0 = with_result(st, truth(fine));
    let end = lemma_guard_runs(cs, s0, next(s), st0, fine);
    if fine {
        lemma_steps_add_up(cs, st, 1, 3);
        (4, end)
    } else {
        lemma_steps_add_up(cs, st, 1, 4);
        (5, end)
    }
}

/// What stands before an operation on integers.
spec fn operation_guarded(
    s: Emission,
    a: ValueView,
    op: BinaryOp,
    b: ValueView,
    width: u32,
    signed: bool,
) -> Emission {
    if op == BinaryOp::Divide || op == BinaryOp::Modulo {
        division_guarded(s, a.operand, b.operand, width, signed)
    } else if op == BinaryOp::ShiftLeft || op == BinaryOp::ShiftRight {
        shift_guarded(s, b.operand, width as u64, width)
    } else {
        s
    }
}

proof fn lemma_int_operated_is(
    s: Emission,
    a: ValueView,
    op: BinaryOp,
    b: ValueView,
    width: u16,
    signed: bool,
    pointer_width: u32,
    span: Span,
)
    requires
        a.ty == LowType::Int(width as u32),
    ensures
        ({
            let ty = ResolvedType::Integer { width: IntegerWidth::Bits(width), signed };
            int_operated(s, a, op, b, ty, pointer_width, span) matches Ok((t, v)) ==> if int_test(
                op,
                signed,
            ) is Some {
                let (test, name) = int_test(op, signed)->Some_0;
                let c = CommandView::Compare { test, left: a.operand, right: b.operand, name };
                t == issue(s, c) && v == (ValueView { operand: next(s), ty: LowType::Int(1) })
            } else {
                int_operation(op, signed) is Some && {
                    let (operation, name) = int_operation(op, signed)->Some_0;
                    let ready = operation_guarded(s, a, op, b, width as u32, signed);
                    let c = CommandView::Binary {
                        operation,
                        left: a.operand,
                        right: b.operand,
                        name,
                    };
                    t == issue(ready, c) && v == (ValueView { operand: next(ready), ty: a.ty })
                }
            }
        }),
{
    reveal(int_operated);
}

proof fn lemma_guard_shape(
    s: Emission,
    a: ValueView,
    op: BinaryOp,
    b: ValueView,
    width: u32,
    signed: bool,
)
    requires
        is_ready(s),
        operation_guarded(s, a, op, b, width, signed).commands.len() <= usize::MAX,
    ensures
        leads(s, operation_guarded(s, a, op, b, width, signed)),
{
    if op == BinaryOp::Divide || op == BinaryOp::Modulo {
        lemma_division_shape(s, a.operand, b.operand, width, signed);
    } else if op == BinaryOp::ShiftLeft || op == BinaryOp::ShiftRight {
        lemma_shift_shape(s, b.operand, width as u64, width);
    } else {
        assert(s.commands.is_prefix_of(s.commands));
    }
}

proof fn lemma_int_operated_shape(
    s: Emission,
    a: ValueView,
    op: BinaryOp,
    b: ValueView,
    width: u16,
    signed: bool,
    pointer_width: u32,
    span: Span,
)
    requires
        is_ready(s),
        a.ty == LowType::Int(width as u32),
    ensures
        ({
            let ty = ResolvedType::Integer { width: IntegerWidth::Bits(width), signed };
            int_operated(s, a, op, b, ty, pointer_width, span) matches Ok((t, v)) ==> (
            t.commands.len() <= usize::MAX ==> leads(s, t) && is_below(
                v.operand,
                t.commands.len() as int,
            ) && v.ty == LowType::Int(
                if int_test(op, signed) is Some {
                    1
                } else {
                    width as u32
                },
            ))
        }),
{
    let ty = ResolvedType::Integer { width: IntegerWidth::Bits(width), signed };
    lemma_int_operated_is(s, a, op, b, width, signed, pointer_width, span);
    if let Ok((t, v)) = int_operated(s, a, op, b, ty, pointer_width, span) {
        if t.commands.len() <= usize::MAX {
            if int_test(op, signed) is Some {
                let (test, name) = int_test(op, signed)->Some_0;
                lemma_issue_shape(
                    s,
                    CommandView::Compare { test, left: a.operand, right: b.operand, name },
                );
            } else {
                let (operation, name) = int_operation(op, signed)->Some_0;
                let ready = operation_guarded(s, a, op, b, width as u32, signed);
                lemma_guard_shape(s, a, op, b, width as u32, signed);
                let c = CommandView::Binary {
                    operation,
                    left: a.operand,
                    right: b.operand,
                    name,
                };
                lemma_issue_shape(ready, c);
                lemma_leads(s, ready, t);
            }
        }
    }
}

/// An operator on integers runs as it computes.
proof fn lemma_int_operated_runs(
    cs: Seq<CommandView>,
    s: Emission,
    a: ValueView,
    op: BinaryOp,
    b: ValueView,
    width: u16,
    signed: bool,
    pointer_width: u32,
    span: Span,
    t: Emission,
    v: ValueView,
    st: State,
    x: i128,
    y: i128,
) -> (r: (nat, State))
    requires
        is_width(width as nat),
        a.ty == LowType::Int(width as u32),
        int_operated(
            s,
            a,
            op,
            b,
            ResolvedType::Integer { width: IntegerWidth::Bits(width), signed },
            pointer_width,
            span,
        ) == Ok::<(Emission, ValueView), crate::instructions::CodegenErrorView>((t, v)),
        stands(cs, s, st),
        t.commands.is_prefix_of(cs),
        operand_value(st, a.operand) == bits_of(x as int, width as nat),
        operand_value(st, b.operand) == bits_of(y as int, width as nat),
        is_below(a.operand, st.pc),
        is_below(b.operand, st.pc),
        (op == BinaryOp::Divide || op == BinaryOp::Modulo) && signed ==> !(held(
            x as int,
            width as nat,
            true,
        ) == -pow2((width - 1) as nat) && held(y as int, width as nat, true) == -1),
    ensures
        match ops::integer_binary(op, x as int, y as int, width as nat, signed) {
            Ok(z) => {
                &&& run(cs, st, r.0) == Next::Go(r.1)
                &&& stands(cs, t, r.1)
                &&& keeps(st, r.1, st.pc)
                &&& operand_value(r.1, v.operand) == scalar_val(z, width as nat)
            },
            Err(_) => run(cs, st, r.0) == Next::Trapped,
        },
{
    let w = width as nat;
    lemma_int_operated_is(s, a, op, b, width, signed, pointer_width, span);
    lemma_bits_are_low(x as int, w);
    lemma_bits_are_low(y as int, w);
    if int_test(op, signed) is Some {
        let (test, name) = int_test(op, signed)->Some_0;
        let c = CommandView::Compare { test, left: a.operand, right: b.operand, name };
        lemma_tests_compare(op, x as int, y as int, w, signed);
        lemma_at(cs, s, c, st);
        let z = truth(test_holds(test, w, low(x as int, w) as nat, low(y as int, w) as nat));
        lemma_one(cs, s, c, st, z);
        (1, with_result(st, z))
    } else {
        let (operation, name) = int_operation(op, signed)->Some_0;
        let ready = operation_guarded(s, a, op, b, width as u32, signed);
        let c = CommandView::Binary { operation, left: a.operand, right: b.operand, name };
        lemma_guard_shape(s, a, op, b, width as u32, signed);
        lemma_issue_shape(ready, c);
        lemma_prefixes(ready.commands, t.commands, cs);
        lemma_operations_compute(op, x, y, w, signed);
        let found = ops::integer_binary(op, x as int, y as int, w, signed);
        let (n, mid) = if op == BinaryOp::Divide || op == BinaryOp::Modulo {
            lemma_division_runs(cs, s, a.operand, b.operand, width as u32, signed, st, x, y)
        } else if op == BinaryOp::ShiftLeft || op == BinaryOp::ShiftRight {
            lemma_shift_runs(cs, s, b.operand, width as u32, st, y)
        } else {
            (0nat, st)
        };
        match found {
            Ok(z) => {
                assert(run(cs, st, n) == Next::Go(mid));
                lemma_operand_stays(st, mid, a.operand, st.pc);
                lemma_operand_stays(st, mid, b.operand, st.pc);
                lemma_at(cs, ready, c, mid);
                let value = scalar_val(z, w);
                lemma_one(cs, ready, c, mid, value);
                lemma_steps_add_up(cs, st, n, 1);
                (n + 1, with_result(mid, value))
            },
            Err(_) => (n, mid),
        }
    }
}

// ---------------------------------------------------------------------------
// Expressions
// ---------------------------------------------------------------------------

proof fn lemma_wired_is_behind(cs: Seq<CommandView>)
    requires
        well_wired(cs),
    ensures
        behind(cs),
    decreases cs.len(),
{
    if cs.len() > 0 {
        lemma_wired_is_behind(cs.drop_last());
        assert forall|i: int| 0 <= i < cs.len() implies (#[trigger] cs[i] matches
            CommandView::Position { block } ==> block < i) by {
            if i < cs.len() - 1 {
                assert(cs.drop_last()[i] == cs[i]);
            }
        }
    }
}

pub proof fn lemma_sound_is_ready(s: Emission)
    requires
        sound(s),
    ensures
        is_ready(s),
{
    reveal(sound);
    lemma_wired_is_behind(s.commands);
}

pub proof fn lemma_extends_is_prefix(s: Emission, t: Emission)
    requires
        extends(s, t),
    ensures
        s.commands.is_prefix_of(t.commands),
        s.commands.len() <= t.commands.len(),
{
    reveal(extends);
}

/// Whether the machine has room for locals of their types.
pub open spec fn locals_typed(
    types: LocalTypes,
    locals: Seq<(LocalId, OperandView, LowType)>,
) -> bool {
    forall|id: LocalId|
        types.dom().contains(id.0) ==> (#[trigger] local_of(locals, locals.len() as int, id) matches
            Some((_, low)) ==> low == LowType::Int(width_of(types[id.0]) as u32))
}

/// What the commands of a simple expression look like.
pub open spec fn is_shaped(s: Emission, e: TypedExprView, t: Emission, v: ValueView) -> bool {
    &&& leads(s, t)
    &&& is_ready(t)
    &&& sound(t)
    &&& is_below(v.operand, t.commands.len() as int)
    &&& v.ty == LowType::Int(width_of(e.ty()) as u32)
}

pub proof fn lemma_emitted_grows(m: Surroundings, s: Emission, e: TypedExprView)
    ensures
        emitted(m, s, e) matches Ok((t, v)) ==> {
            &&& s.commands.is_prefix_of(t.commands)
            &&& s.commands.len() <= t.commands.len()
            &&& sound(s) && t.commands.len() <= usize::MAX ==> sound(t) && is_ready(t) && is_below(
                v.operand,
                t.commands.len() as int,
            )
        },
{
    lemma_emitted(m, s, e);
    if let Ok((t, v)) = emitted(m, s, e) {
        lemma_extends_is_prefix(s, t);
        if sound(s) && t.commands.len() <= usize::MAX {
            lemma_sound_is_ready(t);
        }
    }
}

pub proof fn lemma_low_scalar(m: Surroundings, ty: ResolvedType)
    requires
        is_scalar(ty),
    ensures
        m.low(ty) == Ok::<LowType, crate::instructions::CodegenErrorView>(
            LowType::Int(width_of(ty) as u32),
        ),
{
}

pub proof fn lemma_emitted_shape(m: Surroundings, types: LocalTypes, s: Emission, e: TypedExprView)
    requires
        sound(s),
        is_simple(types, e),
        locals_typed(types, s.locals),
    ensures
        emitted(m, s, e) matches Ok((t, v)) ==> (t.commands.len() <= usize::MAX ==> is_shaped(
            s,
            e,
            t,
            v,
        )),
    decreases e,
{
    lemma_simple_is_scalar(types, e);
    lemma_emitted_grows(m, s, e);
    lemma_sound_is_ready(s);
    match e {
        TypedExprView::Integer { ty, .. } => {
            lemma_low_scalar(m, ty);
        },
        TypedExprView::Unary { operator, operand, ty, span } => {
            lemma_emitted_grows(m, s, *operand);
            lemma_emitted_shape(m, types, s, *operand);
            reveal(unary_operated);
        },
        TypedExprView::Binary { left, operator, right, operand_type, span, .. } => {
            lemma_emitted_grows(m, s, *left);
            lemma_emitted_shape(m, types, s, *left);
            lemma_simple_is_scalar(types, *left);
            if let Ok((s1, a)) = emitted(m, s, *left) {
                if operator == BinaryOp::LogicalAnd || operator == BinaryOp::LogicalOr {
                    lemma_logic_shape(m, types, s, e);
                } else {
                    lemma_emitted_grows(m, s1, *right);
                    if let Ok((s2, b)) = emitted(m, s1, *right) {
                        if let Ok((t, v)) = emitted(m, s, e) {
                            lemma_operated_grows(
                                m,
                                s2,
                                a,
                                operator,
                                b,
                                (*left).ty(),
                                operand_type,
                                span,
                            );
                            if t.commands.len() <= usize::MAX {
                                lemma_emitted_shape(m, types, s1, *right);
                                lemma_leads(s, s1, s2);
                                lemma_operated_shape(
                                    s2,
                                    a,
                                    operator,
                                    b,
                                    operand_type,
                                    m.pointer_width,
                                    span,
                                );
                                lemma_leads(s, s2, t);
                            }
                        }
                    }
                }
            }
        },
        _ => {},
    }
}

/// Operators only add commands.
proof fn lemma_operated_grows(
    m: Surroundings,
    s: Emission,
    a: ValueView,
    op: BinaryOp,
    b: ValueView,
    left: ResolvedType,
    ty: ResolvedType,
    span: Span,
)
    ensures
        operated(m, s, a, op, b, left, ty, span) matches Ok((t, _)) ==> s.commands.len()
            <= t.commands.len(),
{
    reveal(int_operated);
    reveal(emission::float_operated);
    reveal(emission::pointer_moved);
    reveal(emission::pointers_operated);
}

/// Operators on scalars.
proof fn lemma_operated_shape(
    s: Emission,
    a: ValueView,
    op: BinaryOp,
    b: ValueView,
    ty: ResolvedType,
    pointer_width: u32,
    span: Span,
)
    requires
        is_ready(s),
        is_scalar(ty),
        a.ty == LowType::Int(width_of(ty) as u32),
    ensures
        int_operated(s, a, op, b, ty, pointer_width, span) matches Ok((t, v)) ==> (t.commands.len()
            <= usize::MAX ==> leads(s, t) && v.ty == LowType::Int(
            if ty == ResolvedType::Bool || int_test(op, true) is Some {
                1
            } else {
                width_of(ty) as u32
            },
        )),
{
    match ty {
        ResolvedType::Integer { width: IntegerWidth::Bits(n), signed } => {
            lemma_int_operated_shape(s, a, op, b, n, signed, pointer_width, span);
        },
        _ => {
            reveal(int_operated);
            lemma_issue_shape(
                s,
                CommandView::Compare {
                    test: IntTest::Equal,
                    left: a.operand,
                    right: b.operand,
                    name: "eq"@,
                },
            );
            lemma_issue_shape(
                s,
                CommandView::Compare {
                    test: IntTest::NotEqual,
                    left: a.operand,
                    right: b.operand,
                    name: "ne"@,
                },
            );
        },
    }
}

/// The start of the right side of `&&` or `||`.
proof fn lemma_other_shape(s: Emission, condition: OperandView, op: BinaryOp)
    requires
        is_ready(s),
    ensures
        ({
            let t = other_entered(s, condition, op);
            let n = s.commands.len() as int;
            &&& s.commands.is_prefix_of(t.commands)
            &&& t.commands.len() == n + 5
            &&& t.locals == s.locals
            &&& t.block == n
            &&& t.commands[n] is Append
            &&& t.commands[n + 1] is Append
            &&& t.commands[n + 2] is Append
            &&& t.commands[n + 3] == if op == BinaryOp::LogicalAnd {
                CommandView::Branch { condition, yes: n as usize, no: (n + 1) as usize }
            } else {
                CommandView::Branch { condition, yes: (n + 1) as usize, no: n as usize }
            }
            &&& t.commands[n + 4] == (CommandView::Position { block: n as usize })
            &&& n + 5 <= usize::MAX ==> is_ready(t)
            &&& leads(s, t)
        }),
{
    reveal(other_entered);
    let t = other_entered(s, condition, op);
    let n = s.commands.len() as int;
    assert forall|i: int| 0 <= i < n implies #[trigger] t.commands[i] == s.commands[i] by {}
    if n + 5 <= usize::MAX {
        assert forall|i: int| 0 <= i < t.commands.len() implies (#[trigger] t.commands[i] matches
            CommandView::Position { block } ==> block < i) by {
            if i < n {
                assert(t.commands[i] == s.commands[i]);
            } else {
                assert(i == n || i == n + 1 || i == n + 2 || i == n + 3 || i == n + 4);
            }
        }
    }
}

/// The end of `&&` or `||`.
proof fn lemma_joined_shape(s: Emission, other: int, second: OperandView, op: BinaryOp)
    requires
        is_ready(s),
        0 <= other,
        other + 2 < s.commands.len(),
    ensures
        ({
            let (t, v) = logic_joined(s, other, second, op);
            let n = s.commands.len() as int;
            &&& s.commands.is_prefix_of(t.commands)
            &&& t.commands.len() == n + 5
            &&& t.locals == s.locals
            &&& t.block == other + 2
            &&& t.commands[n] == (CommandView::Jump { block: (other + 2) as usize })
            &&& t.commands[n + 1] == (CommandView::Position { block: (other + 1) as usize })
            &&& t.commands[n + 2] == (CommandView::Jump { block: (other + 2) as usize })
            &&& t.commands[n + 3] == (CommandView::Position { block: (other + 2) as usize })
            &&& t.commands[n + 4] == (CommandView::Choose {
                left: second,
                left_block: s.block as usize,
                right: number(
                    if op == BinaryOp::LogicalOr {
                        1
                    } else {
                        0
                    },
                    1,
                ),
                right_block: (other + 1) as usize,
                name: "logicaltmp"@,
            })
            &&& v == (ValueView {
                operand: OperandView::Register((n + 4) as usize),
                ty: LowType::Int(1),
            })
            &&& n + 5 <= usize::MAX ==> is_ready(t)
        }),
{
    reveal(logic_joined);
    let (t, v) = logic_joined(s, other, second, op);
    let n = s.commands.len() as int;
    assert forall|i: int| 0 <= i < n implies #[trigger] t.commands[i] == s.commands[i] by {}
    if n + 5 <= usize::MAX {
        assert forall|i: int| 0 <= i < t.commands.len() implies (#[trigger] t.commands[i] matches
            CommandView::Position { block } ==> block < i) by {
            if i < n {
                assert(t.commands[i] == s.commands[i]);
            } else {
                assert(i == n || i == n + 1 || i == n + 2 || i == n + 3 || i == n + 4);
            }
        }
    }
}

proof fn lemma_other_sound(s: Emission, condition: OperandView, op: BinaryOp)
    requires
        sound(s),
        is_below(condition, s.commands.len() as int),
        knows(s, condition),
        s.commands.len() + 5 <= usize::MAX,
    ensures
        sound(other_entered(s, condition, op)),
{
    lemma_other_entered(s, condition, op);
    lemma_sound_is_ready(s);
    lemma_other_shape(s, condition, op);
}

proof fn lemma_logic_shape(m: Surroundings, types: LocalTypes, s: Emission, e: TypedExprView)
    requires
        sound(s),
        is_simple(types, e),
        locals_typed(types, s.locals),
        e matches TypedExprView::Binary { operator, .. } && (operator == BinaryOp::LogicalAnd
            || operator == BinaryOp::LogicalOr),
    ensures
        emitted(m, s, e) matches Ok((t, v)) ==> (t.commands.len() <= usize::MAX ==> leads(s, t)
            && v.ty == LowType::Int(1)),
    decreases e, 0int,
{
    if let TypedExprView::Binary { left, operator, right, .. } = e {
        lemma_emitted_grows(m, s, *left);
        lemma_emitted_known(m, s, *left);
        if let Ok((t, v)) = emitted(m, s, e) {
            let (s1, a) = emitted(m, s, *left)->Ok_0;
            let condition = a.operand;
            let inside = other_entered(s1, condition, operator);
            let other = s1.commands.len() as int;
            lemma_emitted_grows(m, inside, *right);
            let (s2, b) = emitted(m, inside, *right)->Ok_0;
            assert((t, v) == logic_joined(s2, other, b.operand, operator));
            assert(inside.commands.len() == other + 5) by {
                reveal(other_entered);
            }
            assert(t.commands.len() == s2.commands.len() + 5) by {
                reveal(logic_joined);
            }
            if t.commands.len() <= usize::MAX {
                lemma_emitted_shape(m, types, s, *left);
                lemma_other_shape(s1, condition, operator);
                lemma_other_sound(s1, condition, operator);
                lemma_emitted_shape(m, types, inside, *right);
                lemma_joined_shape(s2, other, b.operand, operator);
                lemma_leads(s, s1, inside);
                lemma_leads(s, inside, s2);
                lemma_prefixes(s.commands, s2.commands, t.commands);
                let k = s2.commands.len() as int;
                assert forall|i: int| s.commands.len() <= i < t.commands.len() implies (
                #[trigger] t.commands[i] matches CommandView::Position { block } ==> block
                    >= s.commands.len()) by {
                    if i < k {
                        assert(t.commands[i] == s2.commands[i]);
                    } else {
                        assert(i == k || i == k + 1 || i == k + 2 || i == k + 3 || i == k + 4);
                    }
                }
            }
        }
    }
}

pub proof fn lemma_emitted_known(m: Surroundings, s: Emission, e: TypedExprView)
    ensures
        emitted(m, s, e) matches Ok((t, v)) ==> (sound(s) && t.commands.len() <= usize::MAX
            ==> knows(t, v.operand)),
{
    lemma_emitted(m, s, e);
}

// ---------------------------------------------------------------------------
// Expressions run
// ---------------------------------------------------------------------------

/// What a run of the commands of an expression comes to: the value of the
/// expression, or a trap where it has none although every local has.
pub open spec fn runs_as(
    types: LocalTypes,
    env: Locals,
    cs: Seq<CommandView>,
    st: State,
    n: nat,
    end: State,
    found: execution::Evaluated,
    heap: Heap,
    ty: ResolvedType,
    t: Emission,
    v: ValueView,
) -> bool {
    match found {
        Ok((x, after)) => {
            &&& after == heap
            &&& run(cs, st, n) == Next::Go(end)
            &&& stands(cs, t, end)
            &&& keeps(st, end, st.pc)
            &&& holds(x, ty, operand_value(end, v.operand))
        },
        Err(_) => all_set(types, env) ==> run(cs, st, n) == Next::Trapped,
    }
}

/// Whether every local of a type has a value.
pub open spec fn all_set(types: LocalTypes, env: Locals) -> bool {
    forall|id: u32| #[trigger] types.dom().contains(id) ==> env.dom().contains(id)
}

/// The code of an expression does what the interpreter does with it: it gives
/// the same value and changes nothing else, and it traps where the interpreter
/// fails. Expressions of integers, truth values and locals are covered, but for
/// the least number divided by minus one, where only the code stops.
pub proof fn lemma_expressions_run_as_they_evaluate(
    m: Surroundings,
    types: LocalTypes,
    s: Emission,
    e: TypedExprView,
    t: Emission,
    v: ValueView,
    w: World,
    heap: Heap,
    env: Locals,
    depth: nat,
    cs: Seq<CommandView>,
    st: State,
) -> (r: (nat, State))
    requires
        is_simple(types, e),
        emitted(m, s, e) == Ok::<(Emission, ValueView), crate::instructions::CodegenErrorView>(
            (t, v),
        ),
        sound(s),
        stands(cs, s, st),
        t.commands.is_prefix_of(cs),
        locals_typed(types, s.locals),
        locals_hold(types, env, s.locals, st),
        divides_safely(w, heap, env, e, depth),
    ensures
        runs_as(
            types,
            env,
            cs,
            st,
            r.0,
            r.1,
            evaluated(w, heap, env, e, depth),
            heap,
            e.ty(),
            t,
            v,
        ),
    decreases e, 1int,
{
    match e {
        TypedExprView::Unary { .. } => {
            lemma_prefixed_runs(m, types, s, e, t, v, w, heap, env, depth, cs, st)
        },
        TypedExprView::Binary { operator, .. } => {
            if operator == BinaryOp::LogicalAnd || operator == BinaryOp::LogicalOr {
                lemma_logic_runs(m, types, s, e, t, v, w, heap, env, depth, cs, st)
            } else {
                lemma_binary_runs(m, types, s, e, t, v, w, heap, env, depth, cs, st)
            }
        },
        _ => lemma_plain_runs(m, types, s, e, t, v, w, heap, env, depth, cs, st),
    }
}

/// Literals and locals.
proof fn lemma_plain_runs(
    m: Surroundings,
    types: LocalTypes,
    s: Emission,
    e: TypedExprView,
    t: Emission,
    v: ValueView,
    w: World,
    heap: Heap,
    env: Locals,
    depth: nat,
    cs: Seq<CommandView>,
    st: State,
) -> (r: (nat, State))
    requires
        is_simple(types, e),
        !(e is Unary) && !(e is Binary),
        emitted(m, s, e) == Ok::<(Emission, ValueView), crate::instructions::CodegenErrorView>(
            (t, v),
        ),
        sound(s),
        stands(cs, s, st),
        t.commands.is_prefix_of(cs),
        locals_typed(types, s.locals),
        locals_hold(types, env, s.locals, st),
        divides_safely(w, heap, env, e, depth),
    ensures
        runs_as(
            types,
            env,
            cs,
            st,
            r.0,
            r.1,
            evaluated(w, heap, env, e, depth),
            heap,
            e.ty(),
            t,
            v,
        ),
{
    match e {
        TypedExprView::Integer { value, ty, .. } => {
            lemma_low_scalar(m, ty);
            let width = width_of(ty);
            let signed = ty->Integer_signed;
            lemma_held_in_range(value as int, width, signed);
            lemma_held_is_stable(value as int, width, signed);
            lemma_held_low(value as int, width, signed);
            lemma_bits_are_low(value as int, width);
            (0, st)
        },
        TypedExprView::Bool { value, .. } => {
            lemma2_to64();
            vstd::arithmetic::div_mod::lemma_small_mod(0, 2);
            vstd::arithmetic::div_mod::lemma_small_mod(1, 2);
            assert(pow2(1) == 2);
            (0, st)
        },
        TypedExprView::Load { id, ty, .. } => {
            let n = s.locals.len() as int;
            let (pointer, low) = local_of(s.locals, n, id)->Some_0;
            if env.dom().contains(id.0) {
                assert(is_stored(types, env, s.locals, st, id));
                let c = CommandView::Load { ty: low, pointer, name: "loadtmp"@ };
                lemma_at(cs, s, c, st);
                let room = pointer->Register_0 as int;
                lemma_one(cs, s, c, st, st.rooms[room]);
                (1, with_result(st, st.rooms[room]))
            } else {
                (0, st)
            }
        },
        _ => (0, st),
    }
}

/// Prefix operators.
proof fn lemma_prefixed_runs(
    m: Surroundings,
    types: LocalTypes,
    s: Emission,
    e: TypedExprView,
    t: Emission,
    v: ValueView,
    w: World,
    heap: Heap,
    env: Locals,
    depth: nat,
    cs: Seq<CommandView>,
    st: State,
) -> (r: (nat, State))
    requires
        is_simple(types, e),
        e is Unary,
        emitted(m, s, e) == Ok::<(Emission, ValueView), crate::instructions::CodegenErrorView>(
            (t, v),
        ),
        sound(s),
        stands(cs, s, st),
        t.commands.is_prefix_of(cs),
        locals_typed(types, s.locals),
        locals_hold(types, env, s.locals, st),
        divides_safely(w, heap, env, e, depth),
    ensures
        runs_as(
            types,
            env,
            cs,
            st,
            r.0,
            r.1,
            evaluated(w, heap, env, e, depth),
            heap,
            e.ty(),
            t,
            v,
        ),
    decreases e, 0int,
{
    match e {
        TypedExprView::Unary { operator, operand, ty, span } => {
            let (s1, a) = emitted(m, s, *operand)->Ok_0;
            lemma_emitted_grows(m, s, *operand);
            assert(s1.commands.len() <= t.commands.len()) by {
                reveal(unary_operated);
            }
            lemma_emitted_shape(m, types, s, *operand);
            lemma_simple_is_scalar(types, *operand);
            lemma_unary_is(s1, operator, a, ty, span, t, v);
            lemma_prefixes(s1.commands, t.commands, cs);
            let (n, mid) = lemma_expressions_run_as_they_evaluate(
                m,
                types,
                s,
                *operand,
                s1,
                a,
                w,
                heap,
                env,
                depth,
                cs,
                st,
            );
            match evaluated(w, heap, env, *operand, depth) {
                Err(_) => (n, mid),
                Ok((x, _)) => {
                    let end = lemma_unary_runs(
                        cs,
                        s1,
                        operator,
                        a,
                        ty,
                        span,
                        t,
                        v,
                        mid,
                        x,
                        w,
                        heap,
                    );
                    lemma_steps_add_up(cs, st, n, 1);
                    (n + 1, end)
                },
            }
        },
        _ => (0, st),
    }
}

/// The command of a prefix operator.
spec fn unary_command(operator: UnaryOp, a: ValueView) -> CommandView {
    if operator == UnaryOp::Negate {
        CommandView::Unary {
            operation: LowUnary::Negate,
            operand: a.operand,
            name: "negtmp"@,
        }
    } else {
        CommandView::Unary { operation: LowUnary::Not, operand: a.operand, name: "nottmp"@ }
    }
}

proof fn lemma_unary_is(
    s: Emission,
    operator: UnaryOp,
    a: ValueView,
    ty: ResolvedType,
    span: Span,
    t: Emission,
    v: ValueView,
)
    requires
        a.ty is Int,
        operator == UnaryOp::Negate || operator == UnaryOp::Not || operator == UnaryOp::BitwiseNot,
        unary_operated(s, operator, a, ty, span) == Ok::<
            (Emission, ValueView),
            crate::instructions::CodegenErrorView,
        >((t, v)),
    ensures
        t == issue(s, unary_command(operator, a)),
        v == (ValueView { operand: next(s), ty: a.ty }),
        s.commands.is_prefix_of(t.commands),
{
    reveal(unary_operated);
}

proof fn lemma_unary_runs(
    cs: Seq<CommandView>,
    s: Emission,
    operator: UnaryOp,
    a: ValueView,
    ty: ResolvedType,
    span: Span,
    t: Emission,
    v: ValueView,
    st: State,
    x: interpreter::ValueView,
    w: World,
    heap: Heap,
) -> (end: State)
    requires
        a.ty is Int,
        unary_operated(s, operator, a, ty, span) == Ok::<
            (Emission, ValueView),
            crate::instructions::CodegenErrorView,
        >((t, v)),
        stands(cs, s, st),
        t.commands.is_prefix_of(cs),
        is_scalar(ty),
        holds(x, ty, operand_value(st, a.operand)),
        operator == UnaryOp::Not ==> ty == ResolvedType::Bool,
        operator == UnaryOp::Negate || operator == UnaryOp::BitwiseNot ==> ty is Integer,
        operator == UnaryOp::Negate || operator == UnaryOp::Not || operator == UnaryOp::BitwiseNot,
    ensures
        run(cs, st, 1) == Next::Go(end),
        stands(cs, t, end),
        keeps(st, end, st.pc),
        execution::pure(execution::unary_of(w, operator, x, ty), heap) matches Ok((y, after))
            && after == heap && holds(y, ty, operand_value(end, v.operand)),
{
    lemma_unary_is(s, operator, a, ty, span, t, v);
    let c = unary_command(operator, a);
    lemma_at(cs, s, c, st);
    match ty {
        ResolvedType::Integer { width: IntegerWidth::Bits(n), signed } => {
            let width = n as nat;
            let k = x->Int_0;
            lemma_prefixes_compute(k, width, signed);
            lemma_bits_are_low(k as int, width);
            let raw = if operator == UnaryOp::Negate {
                -k
            } else {
                -1 - k
            };
            lemma_held_in_range(raw, width, signed);
            lemma_held_is_stable(raw, width, signed);
            let val = bits_of(held(raw, width, signed), width);
            lemma_one(cs, s, c, st, val);
            with_result(st, val)
        },
        _ => {
            let b = x->Bool_0;
            lemma_one_bit(b, b);
            lemma_one(cs, s, c, st, truth(!b));
            with_result(st, truth(!b))
        },
    }
}

proof fn lemma_binary_runs(
    m: Surroundings,
    types: LocalTypes,
    s: Emission,
    e: TypedExprView,
    t: Emission,
    v: ValueView,
    w: World,
    heap: Heap,
    env: Locals,
    depth: nat,
    cs: Seq<CommandView>,
    st: State,
) -> (r: (nat, State))
    requires
        is_simple(types, e),
        e matches TypedExprView::Binary { operator, .. } && operator != BinaryOp::LogicalAnd
            && operator != BinaryOp::LogicalOr,
        emitted(m, s, e) == Ok::<(Emission, ValueView), crate::instructions::CodegenErrorView>(
            (t, v),
        ),
        sound(s),
        stands(cs, s, st),
        t.commands.is_prefix_of(cs),
        locals_typed(types, s.locals),
        locals_hold(types, env, s.locals, st),
        divides_safely(w, heap, env, e, depth),
    ensures
        runs_as(
            types,
            env,
            cs,
            st,
            r.0,
            r.1,
            evaluated(w, heap, env, e, depth),
            heap,
            e.ty(),
            t,
            v,
        ),
    decreases e, 0int,
{
    if let TypedExprView::Binary { left, operator, right, ty, operand_type, span } = e {
        let (s1, a) = emitted(m, s, *left)->Ok_0;
        let (s2, b) = emitted(m, s1, *right)->Ok_0;
        lemma_emitted_grows(m, s, *left);
        lemma_emitted_grows(m, s1, *right);
        lemma_operated_grows(m, s2, a, operator, b, (*left).ty(), operand_type, span);
        lemma_emitted_shape(m, types, s, *left);
        lemma_emitted_shape(m, types, s1, *right);
        lemma_simple_is_scalar(types, *left);
        lemma_operated_shape(s2, a, operator, b, operand_type, m.pointer_width, span);
        lemma_prefixes(s2.commands, t.commands, cs);
        lemma_prefixes(s1.commands, s2.commands, cs);
        let (n, st1) = lemma_expressions_run_as_they_evaluate(
            m,
            types,
            s,
            *left,
            s1,
            a,
            w,
            heap,
            env,
            depth,
            cs,
            st,
        );
        match evaluated(w, heap, env, *left, depth) {
            Err(_) => (n, st1),
            Ok((x, _)) => {
                lemma_sound_locals(s, st1.pc);
                lemma_locals_stay(types, env, s.locals, st, st1);
                let (k, st2) = lemma_expressions_run_as_they_evaluate(
                    m,
                    types,
                    s1,
                    *right,
                    s2,
                    b,
                    w,
                    heap,
                    env,
                    depth,
                    cs,
                    st1,
                );
                lemma_steps_add_up(cs, st, n, k);
                match evaluated(w, heap, env, *right, depth) {
                    Err(_) => (n + k, st2),
                    Ok((y, _)) => {
                        lemma_operand_stays(st1, st2, a.operand, st1.pc);
                        let (j, end) = lemma_operated_runs(
                            cs,
                            s2,
                            a,
                            operator,
                            b,
                            operand_type,
                            m.pointer_width,
                            span,
                            t,
                            v,
                            st2,
                            x,
                            y,
                            w,
                            heap,
                        );
                        lemma_steps_add_up(cs, st, n + k, j);
                        (n + k + j, end)
                    },
                }
            },
        }
    } else {
        (0, st)
    }
}

/// An operator on two scalars.
proof fn lemma_operated_runs(
    cs: Seq<CommandView>,
    s: Emission,
    a: ValueView,
    op: BinaryOp,
    b: ValueView,
    ty: ResolvedType,
    pointer_width: u32,
    span: Span,
    t: Emission,
    v: ValueView,
    st: State,
    x: interpreter::ValueView,
    y: interpreter::ValueView,
    w: World,
    heap: Heap,
) -> (r: (nat, State))
    requires
        is_scalar(ty),
        a.ty == LowType::Int(width_of(ty) as u32),
        int_operated(s, a, op, b, ty, pointer_width, span) == Ok::<
            (Emission, ValueView),
            crate::instructions::CodegenErrorView,
        >((t, v)),
        stands(cs, s, st),
        t.commands.is_prefix_of(cs),
        holds(x, ty, operand_value(st, a.operand)),
        holds(y, ty, operand_value(st, b.operand)),
        is_below(a.operand, st.pc),
        is_below(b.operand, st.pc),
        op != BinaryOp::LogicalAnd && op != BinaryOp::LogicalOr,
        ty == ResolvedType::Bool ==> op == BinaryOp::Equal || op == BinaryOp::NotEqual,
        (op == BinaryOp::Divide || op == BinaryOp::Modulo) && (ty matches ResolvedType::Integer {
            signed,
            ..
        } && signed) ==> !(x->Int_0 == -pow2((width_of(ty) - 1) as nat) && y->Int_0 == -1),
    ensures
        runs_as(
            Map::empty(),
            Map::empty(),
            cs,
            st,
            r.0,
            r.1,
            execution::pure(execution::binary_of(w, op, x, y, ty), heap),
            heap,
            if ty == ResolvedType::Bool || int_test(op, true) is Some {
                ResolvedType::Bool
            } else {
                ty
            },
            t,
            v,
        ),
{
    match ty {
        ResolvedType::Integer { width: IntegerWidth::Bits(n), signed } => {
            let p = x->Int_0;
            let q = y->Int_0;
            let width = n as nat;
            let (k, end) = lemma_int_operated_runs(
                cs,
                s,
                a,
                op,
                b,
                n,
                signed,
                pointer_width,
                span,
                t,
                v,
                st,
                p,
                q,
            );
            lemma_results_are_held(op, p as int, q as int, width, signed);
            (k, end)
        },
        _ => {
            reveal(int_operated);
            let p = x->Bool_0;
            let q = y->Bool_0;
            let (test, name) = if op == BinaryOp::Equal {
                (IntTest::Equal, "eq"@)
            } else {
                (IntTest::NotEqual, "ne"@)
            };
            let c = CommandView::Compare { test, left: a.operand, right: b.operand, name };
            assert(t == issue(s, c));
            lemma_at(cs, s, c, st);
            let z = if op == BinaryOp::Equal {
                p == q
            } else {
                p != q
            };
            lemma_one(cs, s, c, st, truth(z));
            (1, with_result(st, truth(z)))
        },
    }
}

/// What an operator gives is held as a number of its type.
proof fn lemma_results_are_held(op: BinaryOp, a: int, b: int, width: nat, signed: bool)
    ensures
        ops::integer_binary(op, a, b, width, signed) matches Ok(z) ==> (z matches
            ops::ValueView::Integer(n) ==> n == held(n as int, width, signed)),
        ops::integer_binary(op, a, b, width, signed) matches Ok(z) ==> (int_test(op, signed) is Some
            <==> z is Bool) && !(z is Float),
        int_test(op, signed) is Some <==> int_test(op, true) is Some,
{
    let x = low(a, width);
    let y = low(b, width);
    lemma_stays_held(a + b, width, signed);
    lemma_stays_held(a - b, width, signed);
    lemma_stays_held(a * b, width, signed);
    lemma_stays_held(((x as u128) & (y as u128)) as int, width, signed);
    lemma_stays_held(((x as u128) | (y as u128)) as int, width, signed);
    lemma_stays_held(((x as u128) ^ (y as u128)) as int, width, signed);
    lemma_stays_held(x * pow2(y as nat), width, signed);
    lemma_stays_held(x / (pow2(y as nat) as int), width, signed);
    lemma_stays_held(held(a, width, signed) / (pow2(y as nat) as int), width, signed);
    lemma_stays_held(x / y, width, signed);
    lemma_stays_held(x % y, width, signed);
    lemma_stays_held(
        crate::integers::quotient(held(a, width, signed), held(b, width, signed)),
        width,
        signed,
    );
    lemma_stays_held(
        crate::integers::remainder(held(a, width, signed), held(b, width, signed)),
        width,
        signed,
    );
}

proof fn lemma_stays_held(v: int, width: nat, signed: bool)
    ensures
        held(held(v, width, signed) as i128 as int, width, signed) == held(
            v,
            width,
            signed,
        ) as i128,
{
    lemma_held_in_range(v, width, signed);
    lemma_held_is_stable(v, width, signed);
}

/// `&&` and `||` run their right side only where the left one does not decide.
proof fn lemma_logic_runs(
    m: Surroundings,
    types: LocalTypes,
    s: Emission,
    e: TypedExprView,
    t: Emission,
    v: ValueView,
    w: World,
    heap: Heap,
    env: Locals,
    depth: nat,
    cs: Seq<CommandView>,
    st: State,
) -> (r: (nat, State))
    requires
        is_simple(types, e),
        e matches TypedExprView::Binary { operator, .. } && (operator == BinaryOp::LogicalAnd
            || operator == BinaryOp::LogicalOr),
        emitted(m, s, e) == Ok::<(Emission, ValueView), crate::instructions::CodegenErrorView>(
            (t, v),
        ),
        sound(s),
        stands(cs, s, st),
        t.commands.is_prefix_of(cs),
        locals_typed(types, s.locals),
        locals_hold(types, env, s.locals, st),
        divides_safely(w, heap, env, e, depth),
    ensures
        runs_as(
            types,
            env,
            cs,
            st,
            r.0,
            r.1,
            evaluated(w, heap, env, e, depth),
            heap,
            e.ty(),
            t,
            v,
        ),
    decreases e, 0int,
{
    if let TypedExprView::Binary { left, operator, right, .. } = e {
        let (s1, a) = emitted(m, s, *left)->Ok_0;
        let condition = a.operand;
        let inside = other_entered(s1, condition, operator);
        let other = s1.commands.len() as int;
        let (s2, b) = emitted(m, inside, *right)->Ok_0;
        lemma_emitted_grows(m, s, *left);
        lemma_emitted_known(m, s, *left);
        lemma_emitted_grows(m, inside, *right);
        assert((t, v) == logic_joined(s2, other, b.operand, operator));
        assert(inside.commands.len() == other + 5) by {
            reveal(other_entered);
        }
        assert(t.commands.len() == s2.commands.len() + 5) by {
            reveal(logic_joined);
        }
        lemma_emitted_shape(m, types, s, *left);
        lemma_other_shape(s1, condition, operator);
        lemma_other_sound(s1, condition, operator);
        lemma_emitted_shape(m, types, inside, *right);
        lemma_joined_shape(s2, other, b.operand, operator);
        lemma_prefixes(s2.commands, t.commands, cs);
        lemma_prefixes(inside.commands, s2.commands, cs);
        lemma_prefixes(s1.commands, inside.commands, cs);
        let (n, st1) = lemma_expressions_run_as_they_evaluate(
            m,
            types,
            s,
            *left,
            s1,
            a,
            w,
            heap,
            env,
            depth,
            cs,
            st,
        );
        match evaluated(w, heap, env, *left, depth) {
            Err(_) => (n, st1),
            Ok((x, _)) => {
                let p = x->Bool_0;
                let skips = p == (operator == BinaryOp::LogicalOr);
                let st2 = lemma_fork_runs(cs, s1, condition, operator, s2, other, b, t, v, st1, p);
                lemma_steps_add_up(cs, st, n, 4);
                if skips {
                    let end = lemma_short_runs(
                        cs,
                        s1,
                        condition,
                        operator,
                        s2,
                        other,
                        b,
                        t,
                        v,
                        st2,
                    );
                    lemma_steps_add_up(cs, st, n + 4, 2);
                    (n + 6, end)
                } else {
                    assert(keeps(st, st2, st.pc));
                    lemma_sound_locals(s, st2.pc);
                    lemma_locals_stay(types, env, s.locals, st, st2);
                    let (k, st3) = lemma_expressions_run_as_they_evaluate(
                        m,
                        types,
                        inside,
                        *right,
                        s2,
                        b,
                        w,
                        heap,
                        env,
                        depth,
                        cs,
                        st2,
                    );
                    lemma_steps_add_up(cs, st, n + 4, k);
                    match evaluated(w, heap, env, *right, depth) {
                        Err(_) => (n + 4 + k, st3),
                        Ok((y, _)) => {
                            let end = lemma_long_runs(
                                cs,
                                s1,
                                condition,
                                operator,
                                s2,
                                other,
                                b,
                                t,
                                v,
                                st3,
                                y->Bool_0,
                            );
                            lemma_steps_add_up(cs, st, n + 4 + k, 2);
                            (n + 4 + k + 2, end)
                        },
                    }
                }
            },
        }
    } else {
        (0, st)
    }
}

/// Whether commands are those of `&&` or `||` with a left and a right side.
spec fn is_logic(
    cs: Seq<CommandView>,
    s1: Emission,
    condition: OperandView,
    op: BinaryOp,
    s2: Emission,
    other: int,
    b: ValueView,
    t: Emission,
    v: ValueView,
) -> bool {
    &&& is_ready(s1)
    &&& is_ready(s2)
    &&& other == s1.commands.len()
    &&& op == BinaryOp::LogicalAnd || op == BinaryOp::LogicalOr
    &&& leads(other_entered(s1, condition, op), s2)
    &&& (t, v) == logic_joined(s2, other, b.operand, op)
    &&& t.commands.is_prefix_of(cs)
    &&& cs.len() <= usize::MAX
    &&& is_below(b.operand, s2.commands.len() as int)
    &&& is_below(condition, s1.commands.len() as int)
}

proof fn lemma_logic_commands(
    cs: Seq<CommandView>,
    s1: Emission,
    condition: OperandView,
    op: BinaryOp,
    s2: Emission,
    other: int,
    b: ValueView,
    t: Emission,
    v: ValueView,
)
    requires
        is_logic(cs, s1, condition, op, s2, other, b, t, v),
    ensures
        ({
            let k = s2.commands.len() as int;
            &&& other + 5 <= k
            &&& k + 5 <= cs.len()
            &&& cs[other] is Append
            &&& cs[other + 1] is Append
            &&& cs[other + 2] is Append
            &&& cs[other + 3] == if op == BinaryOp::LogicalAnd {
                CommandView::Branch { condition, yes: other as usize, no: (other + 1) as usize }
            } else {
                CommandView::Branch { condition, yes: (other + 1) as usize, no: other as usize }
            }
            &&& cs[other + 4] == (CommandView::Position { block: other as usize })
            &&& cs[k] == (CommandView::Jump { block: (other + 2) as usize })
            &&& cs[k + 1] == (CommandView::Position { block: (other + 1) as usize })
            &&& cs[k + 2] == (CommandView::Jump { block: (other + 2) as usize })
            &&& cs[k + 3] == (CommandView::Position { block: (other + 2) as usize })
            &&& cs[k + 4] is Choose
            &&& cs[k + 4]->Choose_left == b.operand
            &&& cs[k + 4]->Choose_left_block == s2.block as usize
            &&& cs[k + 4]->Choose_right == number(
                if op == BinaryOp::LogicalOr {
                    1
                } else {
                    0
                },
                1,
            )
            &&& start_of(cs, other, 0) == other + 5
            &&& start_of(cs, other + 1, 0) == k + 2
            &&& start_of(cs, other + 2, 0) == k + 4
            &&& v.operand == OperandView::Register((k + 4) as usize)
            &&& t.commands.len() == k + 5
            &&& t.block == other + 2
            &&& is_ready(t)
            &&& s2.commands.is_prefix_of(t.commands)
        }),
{
    let inside = other_entered(s1, condition, op);
    lemma_other_shape(s1, condition, op);
    lemma_joined_shape(s2, other, b.operand, op);
    let k = s2.commands.len() as int;
    assert forall|i: int| 0 <= i < inside.commands.len() implies cs[i]
        == #[trigger] inside.commands[i] by {
        assert(s2.commands[i] == inside.commands[i]);
        assert(t.commands[i] == s2.commands[i]);
    }
    assert(cs[other] == inside.commands[other] && cs[other + 1] == inside.commands[other + 1]);
    assert(cs[other + 2] == inside.commands[other + 2]);
    assert(cs[other + 3] == inside.commands[other + 3]);
    assert(cs[other + 4] == inside.commands[other + 4]);
    assert(cs[k] == t.commands[k] && cs[k + 1] == t.commands[k + 1]);
    assert(cs[k + 2] == t.commands[k + 2] && cs[k + 3] == t.commands[k + 3]);
    assert(cs[k + 4] == t.commands[k + 4]);
    assert forall|j: int| 0 <= j < k implies (#[trigger] cs[j] matches CommandView::Position {
        block,
    } ==> block < other || (j == other + 4 && block == other) || block >= other + 5) by {
        if j < other {
            assert(inside.commands[j] == s1.commands[j]);
            assert(cs[j] == s1.commands[j]);
        } else if j < other + 5 {
            assert(j == other || j == other + 1 || j == other + 2 || j == other + 3 || j == other
                + 4);
        } else {
            assert(t.commands[j] == s2.commands[j]);
            assert(cs[j] == s2.commands[j]);
        }
    }
    lemma_start(cs, other, 0, other + 4);
    assert forall|j: int| 0 <= j < k + 1 implies !(#[trigger] cs[j] matches
        CommandView::Position { block: x } && x == other + 1) by {
        assert(j < k || j == k);
    }
    lemma_start(cs, other + 1, 0, k + 1);
    assert forall|j: int| 0 <= j < k + 3 implies !(#[trigger] cs[j] matches
        CommandView::Position { block: x } && x == other + 2) by {
        assert(j < k || j == k || j == k + 1 || j == k + 2);
    }
    lemma_start(cs, other + 2, 0, k + 3);
}

proof fn lemma_fork_runs(
    cs: Seq<CommandView>,
    s1: Emission,
    condition: OperandView,
    op: BinaryOp,
    s2: Emission,
    other: int,
    b: ValueView,
    t: Emission,
    v: ValueView,
    st: State,
    p: bool,
) -> (end: State)
    requires
        is_logic(cs, s1, condition, op, s2, other, b, t, v),
        stands(cs, s1, st),
        operand_value(st, condition) == truth(p),
    ensures
        run(cs, st, 4) == Next::Go(end),
        end == gone_to(
            cs,
            st,
            if p == (op == BinaryOp::LogicalOr) {
                other + 1
            } else {
                other
            },
        ),
        p != (op == BinaryOp::LogicalOr) ==> stands(cs, other_entered(s1, condition, op), end),
{
    lemma_logic_commands(cs, s1, condition, op, s2, other, b, t, v);
    lemma_other_shape(s1, condition, op);
    lemma_prefixes(s2.commands, t.commands, cs);
    lemma_prefixes(other_entered(s1, condition, op).commands, s2.commands, cs);
    let goal = if p == (op == BinaryOp::LogicalOr) {
        other + 1
    } else {
        other
    };
    lemma_fork(
        cs,
        st,
        condition,
        p,
        cs[other + 3]->Branch_yes as int,
        cs[other + 3]->Branch_no as int,
    );
    gone_to(cs, st, goal)
}

/// Three blocks and a branch.
proof fn lemma_fork(
    cs: Seq<CommandView>,
    st: State,
    condition: OperandView,
    p: bool,
    yes: int,
    no: int,
)
    requires
        0 <= st.pc,
        st.pc + 3 < cs.len(),
        cs[st.pc] is Append,
        cs[st.pc + 1] is Append,
        cs[st.pc + 2] is Append,
        cs[st.pc + 3] matches CommandView::Branch { condition: c, yes: x, no: y } && c == condition
            && x == yes && y == no,
        operand_value(st, condition) == truth(p),
    ensures
        run(cs, st, 4) == Next::Go(
            gone_to(
                cs,
                st,
                if p {
                    yes
                } else {
                    no
                },
            ),
        ),
{
    let a1 = gone_on(st);
    let a2 = gone_on(a1);
    let a3 = gone_on(a2);
    let end = gone_to(
        cs,
        st,
        if p {
            yes
        } else {
            no
        },
    );
    assert(step(cs, st) == Next::Go(a1));
    assert(step(cs, a1) == Next::Go(a2));
    assert(step(cs, a2) == Next::Go(a3));
    assert(operand_value(a3, condition) == operand_value(st, condition));
    assert(step(cs, a3) == Next::Go(end));
    assert(run(cs, end, 0) == Next::Go(end));
    assert(run(cs, a3, 1) == Next::Go(end));
    assert(run(cs, a2, 2) == Next::Go(end));
    assert(run(cs, a1, 3) == Next::Go(end));
}

/// The left side decides.
proof fn lemma_short_runs(
    cs: Seq<CommandView>,
    s1: Emission,
    condition: OperandView,
    op: BinaryOp,
    s2: Emission,
    other: int,
    b: ValueView,
    t: Emission,
    v: ValueView,
    st: State,
) -> (end: State)
    requires
        is_logic(cs, s1, condition, op, s2, other, b, t, v),
        st.block == other + 1,
        st.pc == start_of(cs, other + 1, 0),
    ensures
        run(cs, st, 2) == Next::Go(end),
        stands(cs, t, end),
        keeps(st, end, other),
        operand_value(end, v.operand) == truth(op == BinaryOp::LogicalOr),
{
    lemma_logic_commands(cs, s1, condition, op, s2, other, b, t, v);
    lemma_other_shape(s1, condition, op);
    let a1 = gone_to(cs, st, other + 2);
    assert(step(cs, st) == Next::Go(a1));
    let val = operand_value(
        st,
        number(
            if op == BinaryOp::LogicalOr {
                1
            } else {
                0
            },
            1,
        ),
    );
    lemma2_to64();
    assert(pow2(1) == 2);
    assert(val == truth(op == BinaryOp::LogicalOr));
    let end = with_result(a1, val);
    assert(a1.from == other + 1);
    assert(cs[a1.pc]->Choose_left_block != other + 1);
    assert(step(cs, a1) == Next::Go(end));
    reveal_with_fuel(run, 4);
    end
}

/// The right side decides.
proof fn lemma_long_runs(
    cs: Seq<CommandView>,
    s1: Emission,
    condition: OperandView,
    op: BinaryOp,
    s2: Emission,
    other: int,
    b: ValueView,
    t: Emission,
    v: ValueView,
    st: State,
    q: bool,
) -> (end: State)
    requires
        is_logic(cs, s1, condition, op, s2, other, b, t, v),
        stands(cs, s2, st),
        operand_value(st, b.operand) == truth(q),
    ensures
        run(cs, st, 2) == Next::Go(end),
        stands(cs, t, end),
        keeps(st, end, st.pc),
        operand_value(end, v.operand) == truth(q),
{
    lemma_logic_commands(cs, s1, condition, op, s2, other, b, t, v);
    let a1 = gone_to(cs, st, other + 2);
    assert(step(cs, st) == Next::Go(a1));
    let end = with_result(a1, truth(q));
    assert(a1.from == s2.block);
    assert(operand_value(a1, b.operand) == truth(q));
    assert(step(cs, a1) == Next::Go(end));
    reveal_with_fuel(run, 4);
    end
}

} // verus!
