//! Statements do what they say once they are made into blocks.
use crate::deferral::{lemma_blocks_grow, lemma_statement_grows, lemma_statements_grow};
use crate::execution;
use crate::execution::{blocks_run, evaluated, steps_run, Heap, Locals, Ran, Stepped, World};
use crate::interpreter::ValueView;
use crate::mir;
use crate::mir::{
    cleanup_step, deferred, empty_block, entry_graph, fresh, joined_at, lemma_numbered,
    lowered_block, lowered_function, lowered_statement, lowered_statements, numbered, prepared,
    propagates, with_block, with_end, with_step, with_three_blocks, BlockId, Graph, LoopView,
    MirFunctionView, MirInstructionView, MirTerminatorView,
};
use crate::typed::{
    TypedBlockView, TypedExprView, TypedFunctionView, TypedPlaceView, TypedStmtView,
};
use vstd::prelude::*;

verus! {

// ---------------------------------------------------------------------------
// What statements say
// ---------------------------------------------------------------------------

/// Whether an expression only reads locals and computes.
pub open spec fn is_pure(e: TypedExprView) -> bool
    decreases e,
{
    match e {
        TypedExprView::Integer { .. } => true,
        TypedExprView::Float { .. } => true,
        TypedExprView::Bool { .. } => true,
        TypedExprView::Load { .. } => true,
        TypedExprView::Unary { operand, .. } => is_pure(*operand),
        TypedExprView::Binary { left, right, .. } => is_pure(*left) && is_pure(*right),
        _ => false,
    }
}

/// Whether a statement is made of pure expressions and defers nothing.
pub open spec fn is_structured(s: TypedStmtView) -> bool
    decreases s,
{
    match s {
        TypedStmtView::If { condition, then_branch, else_branch, .. } => {
            &&& is_pure(condition)
            &&& is_structured_block(then_branch)
            &&& else_branch matches Some(other) ==> is_structured_block(other)
        },
        TypedStmtView::While { condition, body, .. } => is_pure(condition) && is_structured_block(
            body,
        ),
        TypedStmtView::Break { .. } => true,
        TypedStmtView::Continue { .. } => true,
        TypedStmtView::Return { value, .. } => value matches Some(e) ==> is_pure(e),
        TypedStmtView::Declare { value, .. } => is_pure(value),
        TypedStmtView::Store { target, value, .. } => target is Local && is_pure(value),
        TypedStmtView::Expr { expression, .. } => is_pure(expression),
        TypedStmtView::Defer { .. } => false,
    }
}

pub open spec fn is_structured_block(b: TypedBlockView) -> bool
    decreases b,
{
    are_structured(b.statements)
}

pub open spec fn are_structured(ss: Seq<TypedStmtView>) -> bool
    decreases ss,
{
    forall|i: int| 0 <= i < ss.len() ==> is_structured(#[trigger] ss[i])
}

/// How a statement ends: control goes on behind it, behind the loop around or
/// at its condition, the function gives a value back, or nothing is known.
pub ghost enum Outcome {
    Falls(Locals),
    Breaks(Locals),
    Continues(Locals),
    Gives(ValueView),
    Stuck,
}

/// What a value decides as a condition, where it does.
pub open spec fn decides(value: ValueView) -> Option<bool> {
    match value {
        ValueView::Bool(b) => Some(b),
        ValueView::Int(n) => Some(n != 0),
        _ => None,
    }
}

/// What the value of an expression decides as a condition.
pub open spec fn decided(
    w: World,
    heap: Heap,
    env: Locals,
    e: TypedExprView,
    depth: nat,
) -> Option<bool> {
    match evaluated(w, heap, env, e, depth) {
        Ok((value, _)) => decides(value),
        Err(_) => None,
    }
}

/// What a statement does with locals. A loop goes round at most `fuel` times.
pub open spec fn meaning(
    w: World,
    heap: Heap,
    env: Locals,
    s: TypedStmtView,
    depth: nat,
    fuel: nat,
) -> Outcome
    decreases fuel, s,
{
    match s {
        TypedStmtView::If { condition, then_branch, else_branch, .. } => match decided(
            w,
            heap,
            env,
            condition,
            depth,
        ) {
            Some(true) => block_meaning(w, heap, env, then_branch, depth, fuel),
            Some(false) => match else_branch {
                Some(other) => block_meaning(w, heap, env, other, depth, fuel),
                None => Outcome::Falls(env),
            },
            None => Outcome::Stuck,
        },
        TypedStmtView::While { condition, body, .. } => match decided(
            w,
            heap,
            env,
            condition,
            depth,
        ) {
            Some(false) => Outcome::Falls(env),
            Some(true) => if fuel == 0 {
                Outcome::Stuck
            } else {
                match block_meaning(w, heap, env, body, depth, fuel) {
                    Outcome::Falls(after) => meaning(w, heap, after, s, depth, (fuel - 1) as nat),
                    Outcome::Continues(after) => meaning(
                        w,
                        heap,
                        after,
                        s,
                        depth,
                        (fuel - 1) as nat,
                    ),
                    Outcome::Breaks(after) => Outcome::Falls(after),
                    other => other,
                }
            },
            None => Outcome::Stuck,
        },
        TypedStmtView::Break { .. } => Outcome::Breaks(env),
        TypedStmtView::Continue { .. } => Outcome::Continues(env),
        TypedStmtView::Return { value, .. } => match value {
            None => Outcome::Gives(ValueView::Unit),
            Some(e) => match evaluated(w, heap, env, e, depth) {
                Ok((x, _)) => Outcome::Gives(x),
                Err(_) => Outcome::Stuck,
            },
        },
        TypedStmtView::Declare { id, value, .. } => match evaluated(w, heap, env, value, depth) {
            Ok((x, _)) => Outcome::Falls(env.insert(id.0, x)),
            Err(_) => Outcome::Stuck,
        },
        TypedStmtView::Store { target, value, .. } => match evaluated(w, heap, env, value, depth) {
            Ok((x, _)) => match target {
                TypedPlaceView::Local { id, .. } => Outcome::Falls(env.insert(id.0, x)),
                _ => Outcome::Stuck,
            },
            Err(_) => Outcome::Stuck,
        },
        TypedStmtView::Expr { expression, .. } => match evaluated(
            w,
            heap,
            env,
            expression,
            depth,
        ) {
            Ok(_) => Outcome::Falls(env),
            Err(_) => Outcome::Stuck,
        },
        TypedStmtView::Defer { .. } => Outcome::Stuck,
    }
}

pub open spec fn block_meaning(
    w: World,
    heap: Heap,
    env: Locals,
    b: TypedBlockView,
    depth: nat,
    fuel: nat,
) -> Outcome
    decreases fuel, b,
{
    all_meaning(w, heap, env, b.statements, 0, depth, fuel)
}

/// The statements from `i` on, one after the other.
pub open spec fn all_meaning(
    w: World,
    heap: Heap,
    env: Locals,
    ss: Seq<TypedStmtView>,
    i: int,
    depth: nat,
    fuel: nat,
) -> Outcome
    decreases fuel, ss, ss.len() - i,
{
    if i < 0 || i >= ss.len() {
        Outcome::Falls(env)
    } else {
        match meaning(w, heap, env, ss[i], depth, fuel) {
            Outcome::Falls(after) => all_meaning(w, heap, after, ss, i + 1, depth, fuel),
            other => other,
        }
    }
}

// ---------------------------------------------------------------------------
// Pure expressions
// ---------------------------------------------------------------------------

proof fn lemma_pure(
    w: World,
    a: Heap,
    b: Heap,
    env: Locals,
    e: TypedExprView,
    depth: nat,
)
    requires
        is_pure(e),
    ensures
        evaluated(w, a, env, e, depth) matches Ok((x, after)) ==> after == a && evaluated(
            w,
            b,
            env,
            e,
            depth,
        ) == Ok::<(ValueView, Heap), execution::StopView>((x, b)),
        evaluated(w, a, env, e, depth) matches Err(stop) ==> stop is Failed && evaluated(
            w,
            b,
            env,
            e,
            depth,
        ) == Err::<(ValueView, Heap), execution::StopView>(stop),
        !propagates(e),
    decreases e,
{
    match e {
        TypedExprView::Unary { operand, .. } => {
            lemma_pure(w, a, b, env, *operand, depth);
        },
        TypedExprView::Binary { left, right, .. } => {
            lemma_pure(w, a, b, env, *left, depth);
            lemma_pure(w, a, b, env, *right, depth);
        },
        _ => {},
    }
}

// ---------------------------------------------------------------------------
// What lowering leaves as it is
// ---------------------------------------------------------------------------

/// Whether blocks are named by their places, and the scopes defer nothing.
pub open spec fn is_clear(g: Graph) -> bool {
    &&& g.blocks.len() <= u32::MAX
    &&& forall|i: int| 0 <= i < g.blocks.len() ==> (#[trigger] g.blocks[i]).id.0 == i
    &&& forall|i: int| 0 <= i < g.defers.len() ==> (#[trigger] g.defers[i]).len() == 0
    &&& forall|i: int|
        0 <= i < g.loops.len() ==> (#[trigger] g.loops[i]).exit.0 < g.blocks.len()
            && g.loops[i].next.0 < g.blocks.len()
}

/// Whether the blocks of a graph stay but for one, which only gets more steps.
pub open spec fn leaves(g: Graph, h: Graph, at: BlockId, next: BlockId) -> bool {
    &&& g.blocks.len() <= h.blocks.len()
    &&& is_clear(h)
    &&& h.defers == g.defers
    &&& h.loops == g.loops
    &&& next.0 < h.blocks.len()
    &&& next == at || next.0 >= g.blocks.len()
    &&& forall|i: int|
        0 <= i < g.blocks.len() && i != at.0 ==> #[trigger] h.blocks[i] == g.blocks[i]
    &&& g.blocks[at.0 as int].instructions.is_prefix_of(h.blocks[at.0 as int].instructions)
}

proof fn lemma_nothing_deferred(defers: Seq<Seq<mir::MirCleanupView>>, first: int)
    requires
        forall|i: int| 0 <= i < defers.len() ==> (#[trigger] defers[i]).len() == 0,
    ensures
        deferred(defers, first).len() == 0,
    decreases defers.len(),
{
    if defers.len() > first && defers.len() > 0 {
        let less = defers.drop_last();
        assert forall|i: int| 0 <= i < less.len() implies (#[trigger] less[i]).len() == 0 by {
            assert(less[i] == defers[i]);
        }
        lemma_nothing_deferred(less, first);
        assert(defers.last().len() == 0);
    }
}

/// A pure expression needs no block of its own.
proof fn lemma_stays(g: Graph, at: BlockId, e: TypedExprView)
    requires
        is_pure(e),
    ensures
        !propagates(e),
        prepared(g, at, propagates(e), deferred(g.defers, 0)) == (g, at),
{
    reveal(prepared);
    lemma_pure_keeps(e);
}

proof fn lemma_pure_keeps(e: TypedExprView)
    requires
        is_pure(e),
    ensures
        !propagates(e),
    decreases e,
{
    match e {
        TypedExprView::Unary { operand, .. } => {
            lemma_pure_keeps(*operand);
        },
        TypedExprView::Binary { left, right, .. } => {
            lemma_pure_keeps(*left);
            lemma_pure_keeps(*right);
        },
        _ => {},
    }
}

proof fn lemma_leaves_twice(
    g: Graph,
    h: Graph,
    k: Graph,
    at: BlockId,
    next: BlockId,
    last: BlockId,
)
    requires
        at.0 < g.blocks.len(),
        leaves(g, h, at, next),
        leaves(h, k, next, last),
    ensures
        leaves(g, k, at, last),
{
    assert forall|i: int| 0 <= i < g.blocks.len() && i != at.0 implies #[trigger] k.blocks[i]
        == g.blocks[i] by {
        assert(h.blocks[i] == g.blocks[i]);
        assert(k.blocks[i] == h.blocks[i]);
    }
    let a = g.blocks[at.0 as int].instructions;
    let b = h.blocks[at.0 as int].instructions;
    let c = k.blocks[at.0 as int].instructions;
    if next != at {
        assert(next.0 != at.0);
        assert(k.blocks[at.0 as int] == h.blocks[at.0 as int]);
    }
    assert forall|i: int| 0 <= i < a.len() implies a[i] == c[i] by {
        assert(a[i] == b[i]);
        assert(b[i] == c[i]);
    }
}

/// A step, or another end, of the block.
proof fn lemma_block_changes(
    g: Graph,
    at: BlockId,
    step: MirInstructionView,
    end: MirTerminatorView,
)
    requires
        is_clear(g),
        at.0 < g.blocks.len(),
    ensures
        leaves(g, with_step(g, at, step), at, at),
        leaves(g, with_end(g, at, end), at, at),
        leaves(g, with_end(with_step(g, at, step), at, end), at, at),
{
    let a = with_step(g, at, step);
    let b = with_end(g, at, end);
    let c = with_end(a, at, end);
    let i = at.0 as int;
    assert(g.blocks[i].instructions.is_prefix_of(a.blocks[i].instructions));
    assert(g.blocks[i].instructions.is_prefix_of(b.blocks[i].instructions));
    assert(g.blocks[i].instructions.is_prefix_of(c.blocks[i].instructions));
}

/// Three new blocks, and another end of block `at`.
proof fn lemma_three_more(g: Graph, at: BlockId, end: MirTerminatorView)
    requires
        is_clear(g),
        at.0 < g.blocks.len(),
        g.blocks.len() + 3 <= u32::MAX,
    ensures
        ({
            let n = g.blocks.len() as int;
            let h = with_end(with_three_blocks(g), at, end);
            &&& is_clear(h)
            &&& h.blocks.len() == n + 3
            &&& h.defers == g.defers
            &&& h.loops == g.loops
            &&& fresh(g, 0).0 == n && fresh(g, 1).0 == n + 1 && fresh(g, 2).0 == n + 2
            &&& forall|i: int| 0 <= i < n && i != at.0 ==> #[trigger] h.blocks[i] == g.blocks[i]
            &&& h.blocks[at.0 as int].instructions == g.blocks[at.0 as int].instructions
            &&& h.blocks[at.0 as int].terminator == end
            &&& h.blocks[n] == empty_block(fresh(g, 0))
            &&& h.blocks[n + 1] == empty_block(fresh(g, 1))
            &&& h.blocks[n + 2] == empty_block(fresh(g, 2))
        }),
{
    broadcast use lemma_numbered;

    let n = g.blocks.len() as int;
    let a = with_block(g);
    let b = with_block(a);
    let c = with_block(b);
    let h = with_end(c, at, end);
    assert(numbered(n).0 == n && numbered(n + 1).0 == n + 1 && numbered(n + 2).0 == n + 2);
    assert forall|i: int| 0 <= i < n + 3 implies (#[trigger] h.blocks[i]).id.0 == i by {
        if i < n {
            assert(g.blocks[i].id.0 == i);
        }
    }
}

proof fn lemma_statement_leaves(g: Graph, s: TypedStmtView, at: BlockId)
    requires
        is_structured(s),
        is_clear(g),
        at.0 < g.blocks.len(),
    ensures
        lowered_statement(g, s, at) matches Ok((h, next, _)) ==> (h.blocks.len() <= u32::MAX
            ==> leaves(g, h, at, next)),
    decreases s, 1int,
{
    match s {
        TypedStmtView::If { .. } => {
            lemma_if_leaves(g, s, at);
        },
        TypedStmtView::While { .. } => {
            lemma_while_leaves(g, s, at);
        },
        TypedStmtView::Break { .. } => {
            if g.loops.len() > 0 {
                let around = g.loops.last();
                lemma_block_changes(
                    g,
                    at,
                    cleanup_step(g, around.depth),
                    MirTerminatorView::Jump(around.exit),
                );
            }
        },
        TypedStmtView::Continue { .. } => {
            if g.loops.len() > 0 {
                let around = g.loops.last();
                lemma_block_changes(
                    g,
                    at,
                    cleanup_step(g, around.depth),
                    MirTerminatorView::Jump(around.next),
                );
            }
        },
        TypedStmtView::Return { value, .. } => {
            if let Some(e) = value {
                lemma_pure_keeps(e);
            }
            reveal(prepared);
            lemma_block_changes(g, at, cleanup_step(g, 0), MirTerminatorView::Return(value));
        },
        TypedStmtView::Declare { id, name, ty, mutable, value, span } => {
            lemma_stays(g, at, value);
            lemma_block_changes(
                g,
                at,
                MirInstructionView::Declare { id, name, ty, mutable, value, span },
                MirTerminatorView::Unreachable,
            );
        },
        TypedStmtView::Store { target, value, ty, span } => {
            lemma_stays(g, at, value);
            lemma_block_changes(
                g,
                at,
                MirInstructionView::Store { target, value, ty, span },
                MirTerminatorView::Unreachable,
            );
        },
        TypedStmtView::Expr { expression, span } => {
            lemma_stays(g, at, expression);
            lemma_block_changes(
                g,
                at,
                MirInstructionView::Expr { expression, span },
                MirTerminatorView::Unreachable,
            );
        },
        _ => {},
    }
}

/// A block that control falls through.
proof fn lemma_joined_leaves(
    g: Graph,
    h: Graph,
    at: BlockId,
    end: BlockId,
    falls: bool,
    join: BlockId,
)
    requires
        at.0 < g.blocks.len(),
        leaves(g, h, at, end),
    ensures
        leaves(g, joined_at(h, end, falls, join), at, end),
        falls ==> joined_at(h, end, falls, join).blocks[end.0 as int] == (mir::MirBlockView {
            terminator: MirTerminatorView::Jump(join),
            ..h.blocks[end.0 as int]
        }),
        forall|i: int|
            0 <= i < h.blocks.len() && i != end.0 ==> #[trigger] joined_at(
                h,
                end,
                falls,
                join,
            ).blocks[i] == h.blocks[i],
        joined_at(h, end, falls, join).blocks.len() == h.blocks.len(),
{
    if falls {
        lemma_block_changes(
            h,
            end,
            MirInstructionView::RunCleanup { actions: Seq::empty() },
            MirTerminatorView::Jump(join),
        );
        lemma_leaves_twice(g, h, joined_at(h, end, falls, join), at, end, end);
    }
}

spec fn if_ready(g: Graph, s: TypedStmtView, at: BlockId) -> Graph {
    with_end(
        with_three_blocks(g),
        at,
        MirTerminatorView::Branch {
            condition: s->If_condition,
            then_block: fresh(g, 0),
            else_block: fresh(g, 1),
            span: s->If_span,
        },
    )
}

proof fn lemma_if_leaves(g: Graph, s: TypedStmtView, at: BlockId)
    requires
        is_structured(s),
        s is If,
        is_clear(g),
        at.0 < g.blocks.len(),
    ensures
        lowered_statement(g, s, at) matches Ok((h, next, _)) ==> (h.blocks.len() <= u32::MAX
            ==> leaves(g, h, at, next)),
    decreases s, 0int,
{
    if let TypedStmtView::If { condition, then_branch, else_branch, span } = s {
        lemma_stays(g, at, condition);
        let (yes, no, join) = (fresh(g, 0), fresh(g, 1), fresh(g, 2));
        let ready = if_ready(g, s, at);
        if let Ok((k, _, _)) = lowered_statement(g, s, at) {
            lemma_if_grows(g, s, at);
            if k.blocks.len() <= u32::MAX {
                lemma_three_more(g, at, ready.blocks[at.0 as int].terminator);
                assert(ready.blocks[at.0 as int].terminator == MirTerminatorView::Branch {
                    condition,
                    then_block: yes,
                    else_block: no,
                    span,
                });
                let (h, end, falls) = lowered_block(ready, then_branch, yes)->Ok_0;
                lemma_block_leaves(ready, then_branch, yes);
                let first = joined_at(h, end, falls, join);
                lemma_joined_leaves(ready, h, yes, end, falls, join);
                match else_branch {
                    None => {
                        lemma_block_changes(
                            first,
                            no,
                            MirInstructionView::RunCleanup { actions: Seq::empty() },
                            MirTerminatorView::Jump(join),
                        );
                    },
                    Some(other) => {
                        let (h2, last, also) = lowered_block(first, other, no)->Ok_0;
                        lemma_block_leaves(first, other, no);
                        lemma_joined_leaves(first, h2, no, last, also, join);
                    },
                }
                let n = g.blocks.len() as int;
                assert forall|i: int| 0 <= i < n && i != at.0 implies #[trigger] k.blocks[i]
                    == g.blocks[i] by {
                    assert(ready.blocks[i] == g.blocks[i]);
                    assert(first.blocks[i] == ready.blocks[i]);
                    assert(k.blocks[i] == first.blocks[i]);
                }
                assert(first.blocks[at.0 as int] == ready.blocks[at.0 as int]);
                assert(k.blocks[at.0 as int] == first.blocks[at.0 as int]);
            }
        }
    }
}

/// How many blocks an `if` has after each of its branches.
proof fn lemma_if_grows(g: Graph, s: TypedStmtView, at: BlockId)
    requires
        is_structured(s),
        s is If,
        at.0 < g.blocks.len(),
    ensures
        lowered_statement(g, s, at) matches Ok((k, _, _)) ==> {
            &&& g.blocks.len() + 3 <= k.blocks.len()
            &&& lowered_block(if_ready(g, s, at), s->then_branch, fresh(g, 0)) matches Ok((
                h,
                end,
                falls,
            )) && g.blocks.len() + 3 <= h.blocks.len() <= k.blocks.len()
        },
{
    broadcast use lemma_numbered;

    if let TypedStmtView::If { condition, then_branch, else_branch, span } = s {
        lemma_stays(g, at, condition);
        let (yes, no, join) = (fresh(g, 0), fresh(g, 1), fresh(g, 2));
        let ready = if_ready(g, s, at);
        lemma_blocks_grow(ready, then_branch, yes);
        if let Ok((h, end, falls)) = lowered_block(ready, then_branch, yes) {
            if let Some(other) = else_branch {
                lemma_blocks_grow(joined_at(h, end, falls, join), other, no);
            }
        }
    }
}

spec fn while_ready(g: Graph, s: TypedStmtView, at: BlockId) -> Graph {
    let (test, inside, exit) = (fresh(g, 0), fresh(g, 1), fresh(g, 2));
    let branch = MirTerminatorView::Branch {
        condition: s->While_condition,
        then_block: inside,
        else_block: exit,
        span: s->While_span,
    };
    let ready = with_end(
        with_end(with_three_blocks(g), at, MirTerminatorView::Jump(test)),
        test,
        branch,
    );
    let around = LoopView { exit, next: test, depth: g.defers.len() as int };
    Graph { loops: g.loops.push(around), ..ready }
}

proof fn lemma_while_ready(g: Graph, s: TypedStmtView, at: BlockId)
    requires
        s is While,
        is_clear(g),
        at.0 < g.blocks.len(),
        g.blocks.len() + 3 <= u32::MAX,
    ensures
        ({
            let n = g.blocks.len() as int;
            let h = while_ready(g, s, at);
            &&& is_clear(h)
            &&& h.blocks.len() == n + 3
            &&& h.defers == g.defers
            &&& h.loops.drop_last() == g.loops
            &&& h.loops.len() > 0
            &&& h.loops.last().exit == fresh(g, 2) && h.loops.last().next == fresh(g, 0)
            &&& fresh(g, 0).0 == n && fresh(g, 1).0 == n + 1 && fresh(g, 2).0 == n + 2
            &&& forall|i: int| 0 <= i < n && i != at.0 ==> #[trigger] h.blocks[i] == g.blocks[i]
            &&& h.blocks[at.0 as int].instructions == g.blocks[at.0 as int].instructions
            &&& h.blocks[at.0 as int].terminator == MirTerminatorView::Jump(fresh(g, 0))
            &&& h.blocks[n].instructions.len() == 0
            &&& h.blocks[n].terminator == (MirTerminatorView::Branch {
                condition: s->While_condition,
                then_block: fresh(g, 1),
                else_block: fresh(g, 2),
                span: s->While_span,
            })
            &&& h.blocks[n + 1] == empty_block(fresh(g, 1))
            &&& h.blocks[n + 2] == empty_block(fresh(g, 2))
        }),
{
    lemma_three_more(g, at, MirTerminatorView::Jump(fresh(g, 0)));
    let h = while_ready(g, s, at);
    assert(h.loops.drop_last() =~= g.loops);
}

proof fn lemma_while_leaves(g: Graph, s: TypedStmtView, at: BlockId)
    requires
        is_structured(s),
        s is While,
        is_clear(g),
        at.0 < g.blocks.len(),
    ensures
        lowered_statement(g, s, at) matches Ok((h, next, _)) ==> (h.blocks.len() <= u32::MAX
            ==> leaves(g, h, at, next)),
    decreases s, 0int,
{
    broadcast use lemma_numbered;

    if let TypedStmtView::While { condition, body, span } = s {
        let ready = while_ready(g, s, at);
        let (test, inside, exit) = (fresh(g, 0), fresh(g, 1), fresh(g, 2));
        if let Ok((k, _, _)) = lowered_statement(g, s, at) {
            lemma_blocks_grow(ready, body, inside);
            if k.blocks.len() <= u32::MAX {
                lemma_while_ready(g, s, at);
                let (h, end, falls) = lowered_block(ready, body, inside)->Ok_0;
                lemma_block_leaves(ready, body, inside);
                lemma_joined_leaves(ready, h, inside, end, falls, test);
                let n = g.blocks.len() as int;
                assert forall|i: int| 0 <= i < n && i != at.0 implies #[trigger] k.blocks[i]
                    == g.blocks[i] by {
                    assert(ready.blocks[i] == g.blocks[i]);
                    assert(h.blocks[i] == ready.blocks[i]);
                }
                assert(h.blocks[at.0 as int] == ready.blocks[at.0 as int]);
                assert(k.blocks[at.0 as int] == h.blocks[at.0 as int]);
                assert(k.loops == g.loops);
            }
        }
    }
}

proof fn lemma_block_leaves(g: Graph, b: TypedBlockView, at: BlockId)
    requires
        is_structured_block(b),
        is_clear(g),
        at.0 < g.blocks.len(),
    ensures
        lowered_block(g, b, at) matches Ok((h, next, _)) ==> (h.blocks.len() <= u32::MAX ==> leaves(
            g,
            h,
            at,
            next,
        )),
    decreases b,
{
    let inside = Graph { defers: g.defers.push(Seq::empty()), ..g };
    assert(is_clear(inside));
    if let Ok((h, last, falls)) = lowered_statements(inside, b.statements, 0, at) {
        if h.blocks.len() <= u32::MAX {
            lemma_statements_leave(inside, b.statements, 0, at);
            lemma_block_changes(
                h,
                last,
                cleanup_step(h, h.defers.len() - 1),
                MirTerminatorView::Unreachable,
            );
            let done = with_step(h, last, cleanup_step(h, h.defers.len() - 1));
            lemma_leaves_twice(inside, h, done, at, last, last);
            assert(inside.defers.drop_last() =~= g.defers);
        }
    }
}

proof fn lemma_statements_leave(g: Graph, ss: Seq<TypedStmtView>, i: int, at: BlockId)
    requires
        are_structured(ss),
        is_clear(g),
        at.0 < g.blocks.len(),
        0 <= i,
    ensures
        lowered_statements(g, ss, i, at) matches Ok((h, next, _)) ==> (h.blocks.len() <= u32::MAX
            ==> leaves(g, h, at, next)),
    decreases ss, ss.len() - i,
{
    if i < ss.len() {
        if let Ok((h, next, falls)) = lowered_statement(g, ss[i], at) {
            lemma_statement_grows(g, ss[i], at);
            lemma_statement_leaves(g, ss[i], at);
            if falls {
                lemma_statements_grow(h, ss, i + 1, next);
                if let Ok((k, last, _)) = lowered_statements(h, ss, i + 1, next) {
                    if k.blocks.len() <= u32::MAX {
                        lemma_statements_leave(h, ss, i + 1, next);
                        lemma_leaves_twice(g, h, k, at, next, last);
                    }
                }
            }
        }
    }
}

// ---------------------------------------------------------------------------
// Runs of blocks
// ---------------------------------------------------------------------------

/// What a function gives from a block on.
#[verifier::opaque]
spec fn goes(
    w: World,
    heap: Heap,
    env: Locals,
    f: MirFunctionView,
    at: BlockId,
    depth: nat,
    rounds: nat,
) -> Ran {
    blocks_run(w, heap, env, f, at, depth, rounds)
}

/// The end of a block.
#[verifier::opaque]
spec fn closed(
    w: World,
    heap: Heap,
    env: Locals,
    f: MirFunctionView,
    at: BlockId,
    depth: nat,
    rounds: nat,
) -> Ran {
    let cleanup = mir::active(f, f.blocks[at.0 as int].id);
    match f.blocks[at.0 as int].terminator {
        MirTerminatorView::Jump(target) => goes(
            w,
            heap,
            env,
            f,
            target,
            depth,
            (rounds - 1) as nat,
        ),
        MirTerminatorView::Branch { condition, then_block, else_block, .. } => match evaluated(
            w,
            heap,
            env,
            condition,
            depth,
        ) {
            Err(stop) => execution::handed_on(f, execution::stopped(w, stop, env, cleanup, depth)),
            Ok((value, last)) => match execution::truth_of(value) {
                Err(message) => Err(message),
                Ok(holds) => goes(
                    w,
                    last,
                    env,
                    f,
                    if holds {
                        then_block
                    } else {
                        else_block
                    },
                    depth,
                    (rounds - 1) as nat,
                ),
            },
        },
        MirTerminatorView::Return(value) => match value {
            Some(e) => match evaluated(w, heap, env, e, depth) {
                Err(stop) => execution::handed_on(
                    f,
                    execution::stopped(w, stop, env, cleanup, depth),
                ),
                Ok(found) => Ok(found),
            },
            None => Ok((ValueView::Unit, heap)),
        },
        MirTerminatorView::Unreachable => Err("reached MIR unreachable terminator"@),
    }
}

/// What a function gives from step `j` of a block on.
#[verifier::opaque]
spec fn rest(
    w: World,
    heap: Heap,
    env: Locals,
    f: MirFunctionView,
    at: BlockId,
    j: int,
    depth: nat,
    rounds: nat,
) -> Ran {
    let block = f.blocks[at.0 as int];
    match steps_run(
        w,
        heap,
        env,
        mir::active(f, block.id),
        block.instructions,
        j,
        depth,
    ) {
        Err(message) => Err(message),
        Ok(Stepped::Left(value, after)) => execution::handed_on(f, Ok((value, after))),
        Ok(Stepped::Done(after, locals)) => closed(w, after, locals, f, at, depth, rounds),
    }
}

/// Whether blocks are named by their places.
pub open spec fn is_numbered(f: MirFunctionView) -> bool {
    &&& f.blocks.len() <= u32::MAX
    &&& forall|i: int| 0 <= i < f.blocks.len() ==> (#[trigger] f.blocks[i]).id.0 == i
}

proof fn lemma_found(f: MirFunctionView, i: int, k: int)
    requires
        is_numbered(f),
        0 <= i <= k < f.blocks.len(),
    ensures
        execution::block_by_id(f.blocks, i, BlockId(k as u32)) == Some(f.blocks[k]),
    decreases k - i,
{
    assert(f.blocks[i].id.0 == i && f.blocks[k].id.0 == k);
    if i < k {
        lemma_found(f, i + 1, k);
    }
}

/// A run of a block is the run of its steps from the first on.
proof fn lemma_enters(
    w: World,
    heap: Heap,
    env: Locals,
    f: MirFunctionView,
    at: BlockId,
    depth: nat,
    rounds: nat,
) -> (counted: Heap)
    requires
        is_numbered(f),
        at.0 < f.blocks.len(),
        goes(w, heap, env, f, at, depth, rounds) is Ok,
    ensures
        rounds > 0,
        goes(w, heap, env, f, at, depth, rounds) == rest(
            w,
            counted,
            env,
            f,
            at,
            0,
            depth,
            rounds,
        ),
{
    reveal(goes);
    reveal(rest);
    reveal(closed);
    lemma_found(f, 0, at.0 as int);
    Heap { steps: (heap.steps + 1) as u64, ..heap }
}

/// The locals behind a step.
spec fn stepped_locals(
    w: World,
    heap: Heap,
    env: Locals,
    step: MirInstructionView,
    depth: nat,
) -> Locals {
    match step {
        MirInstructionView::Declare { id, value, .. } => env.insert(
            id.0,
            evaluated(w, heap, env, value, depth)->Ok_0.0,
        ),
        MirInstructionView::Store { target: TypedPlaceView::Local { id, .. }, value, .. } =>
            env.insert(id.0, evaluated(w, heap, env, value, depth)->Ok_0.0),
        _ => env,
    }
}

spec fn is_pure_step(step: MirInstructionView) -> bool {
    match step {
        MirInstructionView::Declare { value, .. } => is_pure(value),
        MirInstructionView::Store { target, value, .. } => target is Local && is_pure(value),
        MirInstructionView::Expr { expression, .. } => is_pure(expression),
        MirInstructionView::RunCleanup { actions } => actions.len() == 0,
    }
}

spec fn pure_value(step: MirInstructionView) -> Option<TypedExprView> {
    match step {
        MirInstructionView::Declare { value, .. } => Some(value),
        MirInstructionView::Store { value, .. } => Some(value),
        MirInstructionView::Expr { expression, .. } => Some(expression),
        _ => None,
    }
}

/// A step of a run.
proof fn lemma_rest_steps(
    w: World,
    base: Heap,
    heap: Heap,
    env: Locals,
    f: MirFunctionView,
    at: BlockId,
    j: int,
    depth: nat,
    rounds: nat,
)
    requires
        0 <= j < f.blocks[at.0 as int].instructions.len(),
        is_pure_step(f.blocks[at.0 as int].instructions[j]),
        rest(w, heap, env, f, at, j, depth, rounds) is Ok,
    ensures
        ({
            let step = f.blocks[at.0 as int].instructions[j];
            &&& pure_value(step) matches Some(e) ==> evaluated(w, base, env, e, depth) is Ok
            &&& rest(w, heap, env, f, at, j, depth, rounds) == rest(
                w,
                heap,
                stepped_locals(w, base, env, step, depth),
                f,
                at,
                j + 1,
                depth,
                rounds,
            )
        }),
{
    reveal(rest);
    let block = f.blocks[at.0 as int];
    let step = block.instructions[j];
    let cleanup = mir::active(f, block.id);
    if let Some(e) = pure_value(step) {
        lemma_pure(w, heap, base, env, e, depth);
        if let Err(stop) = evaluated(w, heap, env, e, depth) {
            assert(execution::stopped(w, stop, env, cleanup, depth) is Err);
        }
    }
    match step {
        MirInstructionView::RunCleanup { actions } => {
            assert(execution::cleanup_run(w, heap, env, actions, 0, depth) == Ok::<Heap, Seq<char>>(
                heap,
            ));
        },
        MirInstructionView::Store { target, value, .. } => {
            if let Ok((found, after)) = evaluated(w, heap, env, value, depth) {
                assert(execution::stored(w, after, env, target, found, depth) == Ok::<
                    (Heap, Locals),
                    execution::StopView,
                >((heap, stepped_locals(w, base, env, step, depth))));
            }
        },
        _ => {},
    }
}

/// The end of a run of steps.
proof fn lemma_rest_ends(
    w: World,
    heap: Heap,
    env: Locals,
    f: MirFunctionView,
    at: BlockId,
    depth: nat,
    rounds: nat,
)
    ensures
        rest(
            w,
            heap,
            env,
            f,
            at,
            f.blocks[at.0 as int].instructions.len() as int,
            depth,
            rounds,
        ) == closed(w, heap, env, f, at, depth, rounds),
{
    reveal(rest);
}

/// A jump of a run.
proof fn lemma_closes_with_jump(
    w: World,
    heap: Heap,
    env: Locals,
    f: MirFunctionView,
    at: BlockId,
    depth: nat,
    rounds: nat,
)
    requires
        f.blocks[at.0 as int].terminator is Jump,
        closed(w, heap, env, f, at, depth, rounds) is Ok,
        rounds > 0,
    ensures
        rounds > 1,
        closed(w, heap, env, f, at, depth, rounds) == goes(
            w,
            heap,
            env,
            f,
            f.blocks[at.0 as int].terminator->Jump_0,
            depth,
            (rounds - 1) as nat,
        ),
{
    reveal(closed);
    reveal(goes);
}

/// A `return`.
proof fn lemma_closes_with_return(
    w: World,
    base: Heap,
    heap: Heap,
    env: Locals,
    f: MirFunctionView,
    at: BlockId,
    depth: nat,
    rounds: nat,
)
    requires
        f.blocks[at.0 as int].terminator is Return,
        f.blocks[at.0 as int].terminator->Return_0 matches Some(e) ==> is_pure(e),
        closed(w, heap, env, f, at, depth, rounds) is Ok,
    ensures
        match f.blocks[at.0 as int].terminator->Return_0 {
            Some(e) => evaluated(w, base, env, e, depth) matches Ok((x, _)) && closed(
                w,
                heap,
                env,
                f,
                at,
                depth,
                rounds,
            )->Ok_0.0 == x,
            None => closed(w, heap, env, f, at, depth, rounds)->Ok_0.0 == ValueView::Unit,
        },
{
    reveal(closed);
    if let Some(e) = f.blocks[at.0 as int].terminator->Return_0 {
        lemma_pure(w, heap, base, env, e, depth);
        if let Err(stop) = evaluated(w, heap, env, e, depth) {
            let cleanup = mir::active(f, f.blocks[at.0 as int].id);
            assert(execution::stopped(w, stop, env, cleanup, depth) is Err);
        }
    }
}

/// A branch of a run.
proof fn lemma_closes_with_branch(
    w: World,
    base: Heap,
    heap: Heap,
    env: Locals,
    f: MirFunctionView,
    at: BlockId,
    depth: nat,
    rounds: nat,
)
    requires
        f.blocks[at.0 as int].terminator is Branch,
        is_pure(f.blocks[at.0 as int].terminator->Branch_condition),
        closed(w, heap, env, f, at, depth, rounds) is Ok,
    ensures
        ({
            let end = f.blocks[at.0 as int].terminator;
            decided(w, base, env, end->Branch_condition, depth) matches Some(b) && closed(
                w,
                heap,
                env,
                f,
                at,
                depth,
                rounds,
            ) == goes(
                w,
                heap,
                env,
                f,
                if b {
                    end->Branch_then_block
                } else {
                    end->Branch_else_block
                },
                depth,
                (rounds - 1) as nat,
            )
        }),
{
    reveal(closed);
    let condition = f.blocks[at.0 as int].terminator->Branch_condition;
    lemma_pure(w, heap, base, env, condition, depth);
    if let Err(stop) = evaluated(w, heap, env, condition, depth) {
        let cleanup = mir::active(f, f.blocks[at.0 as int].id);
        assert(execution::stopped(w, stop, env, cleanup, depth) is Err);
    }
}

// ---------------------------------------------------------------------------
// Blocks do what statements say
// ---------------------------------------------------------------------------

/// Whether a function has the blocks of `h` that are not in `g`, and block `at`,
/// but for what follows in block `next` where control falls through.
spec fn is_in(
    f: MirFunctionView,
    g: Graph,
    h: Graph,
    at: BlockId,
    next: BlockId,
    falls: bool,
) -> bool {
    &&& h.blocks.len() <= f.blocks.len()
    &&& forall|i: int|
        (i == at.0 || g.blocks.len() <= i < h.blocks.len()) && !(falls && i == next.0)
            ==> #[trigger] f.blocks[i] == h.blocks[i]
    &&& falls ==> h.blocks[next.0 as int].instructions.is_prefix_of(
        f.blocks[next.0 as int].instructions,
    )
}

/// Whether the rest of a run is what an outcome says.
spec fn came(
    w: World,
    f: MirFunctionView,
    g: Graph,
    next: BlockId,
    j: int,
    falls: bool,
    outcome: Outcome,
    heap: Heap,
    left: nat,
    depth: nat,
    rounds: nat,
    r: Ran,
) -> bool {
    match outcome {
        Outcome::Falls(env) => falls && 0 < left <= rounds && rest(
            w,
            heap,
            env,
            f,
            next,
            j,
            depth,
            left,
        ) == r,
        Outcome::Breaks(env) => g.loops.len() > 0 && left < rounds && goes(
            w,
            heap,
            env,
            f,
            g.loops.last().exit,
            depth,
            left,
        ) == r,
        Outcome::Continues(env) => g.loops.len() > 0 && left < rounds && goes(
            w,
            heap,
            env,
            f,
            g.loops.last().next,
            depth,
            left,
        ) == r,
        Outcome::Gives(v) => r->Ok_0.0 == v,
        Outcome::Stuck => false,
    }
}

proof fn lemma_statement_runs(
    w: World,
    f: MirFunctionView,
    g: Graph,
    s: TypedStmtView,
    at: BlockId,
    h: Graph,
    next: BlockId,
    falls: bool,
    base: Heap,
    heap: Heap,
    env: Locals,
    depth: nat,
    rounds: nat,
    fuel: nat,
    r: Ran,
) -> (p: (Heap, nat))
    requires
        is_structured(s),
        is_clear(g),
        is_numbered(f),
        at.0 < g.blocks.len(),
        lowered_statement(g, s, at) == Ok::<(Graph, BlockId, bool), mir::MirError>(
            (h, next, falls),
        ),
        is_in(f, g, h, at, next, falls),
        0 < rounds <= fuel,
        rest(
            w,
            heap,
            env,
            f,
            at,
            g.blocks[at.0 as int].instructions.len() as int,
            depth,
            rounds,
        ) == r,
        r is Ok,
    ensures
        came(
            w,
            f,
            g,
            next,
            h.blocks[next.0 as int].instructions.len() as int,
            falls,
            meaning(w, base, env, s, depth, fuel),
            p.0,
            p.1,
            depth,
            rounds,
            r,
        ),
    decreases rounds, s, 1int,
{
    let j = g.blocks[at.0 as int].instructions.len() as int;
    match s {
        TypedStmtView::If { .. } => {
            lemma_if_runs(
                w,
                f,
                g,
                s,
                at,
                h,
                next,
                falls,
                base,
                heap,
                env,
                depth,
                rounds,
                fuel,
                r,
            )
        },
        TypedStmtView::While { .. } => {
            lemma_while_runs(
                w,
                f,
                g,
                s,
                at,
                h,
                next,
                falls,
                base,
                heap,
                env,
                depth,
                rounds,
                fuel,
                r,
            )
        },
        _ => {
            lemma_plain_runs(
                w,
                f,
                g,
                s,
                at,
                h,
                next,
                falls,
                base,
                heap,
                env,
                depth,
                rounds,
                fuel,
                r,
            )
        },
    }
}

/// Statements without others inside.
proof fn lemma_plain_runs(
    w: World,
    f: MirFunctionView,
    g: Graph,
    s: TypedStmtView,
    at: BlockId,
    h: Graph,
    next: BlockId,
    falls: bool,
    base: Heap,
    heap: Heap,
    env: Locals,
    depth: nat,
    rounds: nat,
    fuel: nat,
    r: Ran,
) -> (p: (Heap, nat))
    requires
        !(s is If) && !(s is While),
        is_structured(s),
        is_clear(g),
        is_numbered(f),
        at.0 < g.blocks.len(),
        lowered_statement(g, s, at) == Ok::<(Graph, BlockId, bool), mir::MirError>(
            (h, next, falls),
        ),
        is_in(f, g, h, at, next, falls),
        0 < rounds <= fuel,
        rest(
            w,
            heap,
            env,
            f,
            at,
            g.blocks[at.0 as int].instructions.len() as int,
            depth,
            rounds,
        ) == r,
        r is Ok,
    ensures
        came(
            w,
            f,
            g,
            next,
            h.blocks[next.0 as int].instructions.len() as int,
            falls,
            meaning(w, base, env, s, depth, fuel),
            p.0,
            p.1,
            depth,
            rounds,
            r,
        ),
{
    let k = at.0 as int;
    let j = g.blocks[k].instructions.len() as int;
    match s {
        TypedStmtView::Break { .. } => {
            lemma_nothing_deferred(g.defers, g.loops.last().depth);
            assert(f.blocks[k] == h.blocks[k]);
            assert(f.blocks[k].instructions[j] == cleanup_step(g, g.loops.last().depth));
            lemma_rest_steps(w, base, heap, env, f, at, j, depth, rounds);
            lemma_rest_ends(w, heap, env, f, at, depth, rounds);
            lemma_closes_with_jump(w, heap, env, f, at, depth, rounds);
            (heap, (rounds - 1) as nat)
        },
        TypedStmtView::Continue { .. } => {
            lemma_nothing_deferred(g.defers, g.loops.last().depth);
            assert(f.blocks[k] == h.blocks[k]);
            assert(f.blocks[k].instructions[j] == cleanup_step(g, g.loops.last().depth));
            lemma_rest_steps(w, base, heap, env, f, at, j, depth, rounds);
            lemma_rest_ends(w, heap, env, f, at, depth, rounds);
            lemma_closes_with_jump(w, heap, env, f, at, depth, rounds);
            (heap, (rounds - 1) as nat)
        },
        TypedStmtView::Return { value, .. } => {
            if let Some(e) = value {
                lemma_pure_keeps(e);
            }
            reveal(prepared);
            lemma_nothing_deferred(g.defers, 0);
            assert(f.blocks[k] == h.blocks[k]);
            assert(f.blocks[k].instructions[j] == cleanup_step(g, 0));
            lemma_rest_steps(w, base, heap, env, f, at, j, depth, rounds);
            lemma_rest_ends(w, heap, env, f, at, depth, rounds);
            lemma_closes_with_return(w, base, heap, env, f, at, depth, rounds);
            (heap, rounds)
        },
        TypedStmtView::Declare { id, name, ty, mutable, value, span } => {
            lemma_stays(g, at, value);
            let step = MirInstructionView::Declare { id, name, ty, mutable, value, span };
            assert(h == with_step(g, at, step) && next == at);
            assert(h.blocks[k].instructions[j] == step);
            assert(f.blocks[k].instructions[j] == step);
            lemma_rest_steps(w, base, heap, env, f, at, j, depth, rounds);
            (heap, rounds)
        },
        TypedStmtView::Store { target, value, ty, span } => {
            lemma_stays(g, at, value);
            let step = MirInstructionView::Store { target, value, ty, span };
            assert(h == with_step(g, at, step) && next == at);
            assert(h.blocks[k].instructions[j] == step);
            assert(f.blocks[k].instructions[j] == step);
            lemma_rest_steps(w, base, heap, env, f, at, j, depth, rounds);
            (heap, rounds)
        },
        TypedStmtView::Expr { expression, span } => {
            lemma_stays(g, at, expression);
            let step = MirInstructionView::Expr { expression, span };
            assert(h == with_step(g, at, step) && next == at);
            assert(h.blocks[k].instructions[j] == step);
            assert(f.blocks[k].instructions[j] == step);
            lemma_rest_steps(w, base, heap, env, f, at, j, depth, rounds);
            (heap, rounds)
        },
        _ => (heap, rounds),
    }
}

/// A choice.
proof fn lemma_if_runs(
    w: World,
    f: MirFunctionView,
    g: Graph,
    s: TypedStmtView,
    at: BlockId,
    h: Graph,
    next: BlockId,
    falls: bool,
    base: Heap,
    heap: Heap,
    env: Locals,
    depth: nat,
    rounds: nat,
    fuel: nat,
    r: Ran,
) -> (p: (Heap, nat))
    requires
        s is If,
        is_structured(s),
        is_clear(g),
        is_numbered(f),
        at.0 < g.blocks.len(),
        lowered_statement(g, s, at) == Ok::<(Graph, BlockId, bool), mir::MirError>(
            (h, next, falls),
        ),
        is_in(f, g, h, at, next, falls),
        0 < rounds <= fuel,
        rest(
            w,
            heap,
            env,
            f,
            at,
            g.blocks[at.0 as int].instructions.len() as int,
            depth,
            rounds,
        ) == r,
        r is Ok,
    ensures
        came(
            w,
            f,
            g,
            next,
            h.blocks[next.0 as int].instructions.len() as int,
            falls,
            meaning(w, base, env, s, depth, fuel),
            p.0,
            p.1,
            depth,
            rounds,
            r,
        ),
    decreases rounds, s, 0int,
{
    lemma_if_grows(g, s, at);
    lemma_statement_leaves(g, s, at);
    if let TypedStmtView::If { condition, then_branch, else_branch, span } = s {
        lemma_stays(g, at, condition);
        let (yes, no, join) = (fresh(g, 0), fresh(g, 1), fresh(g, 2));
        let ready = if_ready(g, s, at);
        let branch = MirTerminatorView::Branch {
            condition,
            then_block: yes,
            else_block: no,
            span,
        };
        lemma_three_more(g, at, branch);
        let n = g.blocks.len() as int;
        let k = at.0 as int;
        let (h1, end, on) = lowered_block(ready, then_branch, yes)->Ok_0;
        lemma_block_leaves(ready, then_branch, yes);
        let first = joined_at(h1, end, on, join);
        lemma_joined_leaves(ready, h1, yes, end, on, join);
        lemma_if_parts(f, g, s, at, h, next, falls);
        lemma_rest_ends(w, heap, env, f, at, depth, rounds);
        lemma_closes_with_branch(w, base, heap, env, f, at, depth, rounds);
        let b = decided(w, base, env, condition, depth)->Some_0;
        let goal = if b {
            yes
        } else {
            no
        };
        let counted = lemma_enters(w, heap, env, f, goal, depth, (rounds - 1) as nat);
        let left = (rounds - 1) as nat;
        if b {
            let (heap1, left1) = lemma_block_runs(
                w,
                f,
                ready,
                then_branch,
                yes,
                h1,
                end,
                on,
                base,
                counted,
                env,
                depth,
                left,
                fuel,
                r,
            );
            match block_meaning(w, base, env, then_branch, depth, fuel) {
                Outcome::Falls(after) => {
                    lemma_rest_ends(w, heap1, after, f, end, depth, left1);
                    lemma_closes_with_jump(w, heap1, after, f, end, depth, left1);
                    let heap2 = lemma_enters(w, heap1, after, f, join, depth, (left1 - 1) as nat);
                    (heap2, (left1 - 1) as nat)
                },
                _ => (heap1, left1),
            }
        } else {
            match else_branch {
                None => {
                    lemma_rest_ends(w, counted, env, f, no, depth, left);
                    lemma_closes_with_jump(w, counted, env, f, no, depth, left);
                    let heap2 = lemma_enters(w, counted, env, f, join, depth, (left - 1) as nat);
                    (heap2, (left - 1) as nat)
                },
                Some(other) => {
                    let (h2, last, also) = lowered_block(first, other, no)->Ok_0;
                    let (heap1, left1) = lemma_block_runs(
                        w,
                        f,
                        first,
                        other,
                        no,
                        h2,
                        last,
                        also,
                        base,
                        counted,
                        env,
                        depth,
                        left,
                        fuel,
                        r,
                    );
                    match block_meaning(w, base, env, other, depth, fuel) {
                        Outcome::Falls(after) => {
                            lemma_rest_ends(w, heap1, after, f, last, depth, left1);
                            lemma_closes_with_jump(w, heap1, after, f, last, depth, left1);
                            let heap2 = lemma_enters(
                                w,
                                heap1,
                                after,
                                f,
                                join,
                                depth,
                                (left1 - 1) as nat,
                            );
                            (heap2, (left1 - 1) as nat)
                        },
                        _ => (heap1, left1),
                    }
                },
            }
        }
    } else {
        (heap, rounds)
    }
}

/// The blocks of a choice in a function.
proof fn lemma_if_parts(
    f: MirFunctionView,
    g: Graph,
    s: TypedStmtView,
    at: BlockId,
    h: Graph,
    next: BlockId,
    falls: bool,
)
    requires
        s is If,
        is_structured(s),
        is_clear(g),
        is_numbered(f),
        at.0 < g.blocks.len(),
        lowered_statement(g, s, at) == Ok::<(Graph, BlockId, bool), mir::MirError>(
            (h, next, falls),
        ),
        is_in(f, g, h, at, next, falls),
    ensures
        ({
            let (yes, no, join) = (fresh(g, 0), fresh(g, 1), fresh(g, 2));
            let n = g.blocks.len() as int;
            let ready = if_ready(g, s, at);
            let (h1, end, on) = lowered_block(ready, s->then_branch, yes)->Ok_0;
            let first = joined_at(h1, end, on, join);
            &&& next == join
            &&& yes.0 == n && no.0 == n + 1 && join.0 == n + 2
            &&& n + 3 <= f.blocks.len()
            &&& is_clear(ready) && ready.blocks.len() == n + 3 && ready.loops == g.loops
            &&& ready.blocks[n].instructions.len() == 0
            &&& is_clear(first) && first.blocks.len() == h1.blocks.len() && first.loops == g.loops
            &&& n + 3 <= h1.blocks.len()
            &&& first.blocks[n + 1].instructions.len() == 0
            &&& h.blocks[n + 2].instructions.len() == 0
            &&& f.blocks[at.0 as int].instructions == g.blocks[at.0 as int].instructions
            &&& f.blocks[at.0 as int].terminator == (MirTerminatorView::Branch {
                condition: s->If_condition,
                then_block: yes,
                else_block: no,
                span: s->If_span,
            })
            &&& is_in(f, ready, h1, yes, end, on)
            &&& on ==> falls && end.0 < f.blocks.len() && f.blocks[end.0 as int].instructions
                == h1.blocks[end.0 as int].instructions && f.blocks[end.0 as int].terminator
                == MirTerminatorView::Jump(join)
            &&& match s->else_branch {
                None => falls && f.blocks[n + 1].instructions.len() == 0 && f.blocks[n
                    + 1].terminator == MirTerminatorView::Jump(join),
                Some(other) => lowered_block(first, other, no) matches Ok((h2, last, also))
                    && is_in(f, first, h2, no, last, also) && (also ==> falls && last.0
                    < f.blocks.len() && f.blocks[last.0 as int].instructions
                    == h2.blocks[last.0 as int].instructions && f.blocks[last.0 as int].terminator
                    == MirTerminatorView::Jump(join)),
            }
        }),
{
    lemma_if_grows(g, s, at);
    if let TypedStmtView::If { condition, then_branch, else_branch, span } = s {
        lemma_stays(g, at, condition);
        let (yes, no, join) = (fresh(g, 0), fresh(g, 1), fresh(g, 2));
        let ready = if_ready(g, s, at);
        let branch = MirTerminatorView::Branch {
            condition,
            then_block: yes,
            else_block: no,
            span,
        };
        lemma_three_more(g, at, branch);
        let n = g.blocks.len() as int;
        let k = at.0 as int;
        let (h1, end, on) = lowered_block(ready, then_branch, yes)->Ok_0;
        lemma_block_leaves(ready, then_branch, yes);
        let first = joined_at(h1, end, on, join);
        lemma_joined_leaves(ready, h1, yes, end, on, join);
        assert(first.blocks[k] == ready.blocks[k]);
        assert(first.blocks[n + 1] == ready.blocks[n + 1]);
        assert(first.blocks[n + 2] == ready.blocks[n + 2]);
        match else_branch {
            None => {
                lemma_block_changes(
                    first,
                    no,
                    MirInstructionView::RunCleanup { actions: Seq::empty() },
                    MirTerminatorView::Jump(join),
                );
                assert(h == with_end(first, no, MirTerminatorView::Jump(join)));
            },
            Some(other) => {
                let (h2, last, also) = lowered_block(first, other, no)->Ok_0;
                lemma_blocks_grow(first, other, no);
                lemma_block_leaves(first, other, no);
                lemma_joined_leaves(first, h2, no, last, also, join);
                assert forall|i: int|
                    (i == no.0 || first.blocks.len() <= i < h2.blocks.len()) && !(also && i
                        == last.0) implies #[trigger] f.blocks[i] == h2.blocks[i] by {
                    assert(h.blocks[i] == h2.blocks[i]);
                    assert(f.blocks[i] == h.blocks[i]);
                }
                if also {
                    let l = last.0 as int;
                    assert(f.blocks[l] == h.blocks[l]);
                }
            },
        }
        assert(h.blocks[k] == first.blocks[k]);
        assert(h.blocks[n + 2] == first.blocks[n + 2]);
        assert(f.blocks[k] == h.blocks[k]);
        assert forall|i: int|
            (i == yes.0 || ready.blocks.len() <= i < h1.blocks.len()) && !(on && i
                == end.0) implies #[trigger] f.blocks[i] == h1.blocks[i] by {
            assert(first.blocks[i] == h1.blocks[i]);
            assert(h.blocks[i] == first.blocks[i]);
            assert(f.blocks[i] == h.blocks[i]);
        }
        if on {
            let e = end.0 as int;
            assert(h.blocks[e] == first.blocks[e]);
            assert(f.blocks[e] == h.blocks[e]);
        }
        if else_branch is None {
            assert(f.blocks[n + 1] == h.blocks[n + 1]);
        }
    }
}

/// A loop.
proof fn lemma_while_runs(
    w: World,
    f: MirFunctionView,
    g: Graph,
    s: TypedStmtView,
    at: BlockId,
    h: Graph,
    next: BlockId,
    falls: bool,
    base: Heap,
    heap: Heap,
    env: Locals,
    depth: nat,
    rounds: nat,
    fuel: nat,
    r: Ran,
) -> (p: (Heap, nat))
    requires
        s is While,
        is_structured(s),
        is_clear(g),
        is_numbered(f),
        at.0 < g.blocks.len(),
        lowered_statement(g, s, at) == Ok::<(Graph, BlockId, bool), mir::MirError>(
            (h, next, falls),
        ),
        is_in(f, g, h, at, next, falls),
        0 < rounds <= fuel,
        rest(
            w,
            heap,
            env,
            f,
            at,
            g.blocks[at.0 as int].instructions.len() as int,
            depth,
            rounds,
        ) == r,
        r is Ok,
    ensures
        came(
            w,
            f,
            g,
            next,
            h.blocks[next.0 as int].instructions.len() as int,
            falls,
            meaning(w, base, env, s, depth, fuel),
            p.0,
            p.1,
            depth,
            rounds,
            r,
        ),
    decreases rounds, s, 0int,
{
    lemma_while_parts(f, g, s, at, h, next, falls);
    lemma_rest_ends(w, heap, env, f, at, depth, rounds);
    lemma_closes_with_jump(w, heap, env, f, at, depth, rounds);
    lemma_loop_runs(
        w,
        f,
        g,
        s,
        at,
        h,
        next,
        falls,
        base,
        heap,
        env,
        depth,
        (rounds - 1) as nat,
        fuel,
        r,
    )
}

/// The blocks of a loop in a function.
proof fn lemma_while_parts(
    f: MirFunctionView,
    g: Graph,
    s: TypedStmtView,
    at: BlockId,
    h: Graph,
    next: BlockId,
    falls: bool,
)
    requires
        s is While,
        is_structured(s),
        is_clear(g),
        is_numbered(f),
        at.0 < g.blocks.len(),
        lowered_statement(g, s, at) == Ok::<(Graph, BlockId, bool), mir::MirError>(
            (h, next, falls),
        ),
        is_in(f, g, h, at, next, falls),
    ensures
        ({
            let (test, inside, exit) = (fresh(g, 0), fresh(g, 1), fresh(g, 2));
            let n = g.blocks.len() as int;
            let ready = while_ready(g, s, at);
            &&& next == exit && falls
            &&& test.0 == n && inside.0 == n + 1 && exit.0 == n + 2
            &&& n + 3 <= f.blocks.len()
            &&& is_clear(ready) && ready.blocks.len() == n + 3
            &&& ready.loops.len() > 0
            &&& ready.loops.last().exit == exit && ready.loops.last().next == test
            &&& ready.blocks[n + 1].instructions.len() == 0
            &&& h.blocks[n + 2].instructions.len() == 0
            &&& f.blocks[at.0 as int].instructions == g.blocks[at.0 as int].instructions
            &&& f.blocks[at.0 as int].terminator == MirTerminatorView::Jump(test)
            &&& f.blocks[n].instructions.len() == 0
            &&& f.blocks[n].terminator == (MirTerminatorView::Branch {
                condition: s->While_condition,
                then_block: inside,
                else_block: exit,
                span: s->While_span,
            })
            &&& lowered_block(ready, s->While_body, inside) matches Ok((h1, end, on)) && is_in(
                f,
                ready,
                h1,
                inside,
                end,
                on,
            ) && (on ==> end.0 < f.blocks.len() && f.blocks[end.0 as int].instructions
                == h1.blocks[end.0 as int].instructions && f.blocks[end.0 as int].terminator
                == MirTerminatorView::Jump(test))
        }),
{
    broadcast use lemma_numbered;

    if let TypedStmtView::While { condition, body, span } = s {
        let ready = while_ready(g, s, at);
        let (test, inside, exit) = (fresh(g, 0), fresh(g, 1), fresh(g, 2));
        lemma_blocks_grow(ready, body, inside);
        lemma_while_ready(g, s, at);
        let (h1, end, on) = lowered_block(ready, body, inside)->Ok_0;
        lemma_block_leaves(ready, body, inside);
        lemma_joined_leaves(ready, h1, inside, end, on, test);
        let n = g.blocks.len() as int;
        let k = at.0 as int;
        let done = joined_at(h1, end, on, test);
        assert(h.blocks == done.blocks);
        assert(done.blocks[k] == h1.blocks[k] && h1.blocks[k] == ready.blocks[k]);
        assert(done.blocks[n] == h1.blocks[n] && h1.blocks[n] == ready.blocks[n]);
        assert(done.blocks[n + 2] == h1.blocks[n + 2] && h1.blocks[n + 2] == ready.blocks[n + 2]);
        assert(f.blocks[k] == h.blocks[k] && f.blocks[n] == h.blocks[n]);
        assert forall|i: int|
            (i == inside.0 || ready.blocks.len() <= i < h1.blocks.len()) && !(on && i
                == end.0) implies #[trigger] f.blocks[i] == h1.blocks[i] by {
            assert(done.blocks[i] == h1.blocks[i]);
            assert(f.blocks[i] == h.blocks[i]);
        }
        if on {
            let e = end.0 as int;
            assert(f.blocks[e] == h.blocks[e]);
        }
    }
}

/// A loop, from its condition on.
proof fn lemma_loop_runs(
    w: World,
    f: MirFunctionView,
    g: Graph,
    s: TypedStmtView,
    at: BlockId,
    h: Graph,
    next: BlockId,
    falls: bool,
    base: Heap,
    heap: Heap,
    env: Locals,
    depth: nat,
    rounds: nat,
    fuel: nat,
    r: Ran,
) -> (p: (Heap, nat))
    requires
        s is While,
        is_structured(s),
        is_clear(g),
        is_numbered(f),
        at.0 < g.blocks.len(),
        lowered_statement(g, s, at) == Ok::<(Graph, BlockId, bool), mir::MirError>(
            (h, next, falls),
        ),
        is_in(f, g, h, at, next, falls),
        rounds <= fuel,
        goes(w, heap, env, f, fresh(g, 0), depth, rounds) == r,
        r is Ok,
    ensures
        came(
            w,
            f,
            g,
            next,
            h.blocks[next.0 as int].instructions.len() as int,
            falls,
            meaning(w, base, env, s, depth, fuel),
            p.0,
            p.1,
            depth,
            rounds,
            r,
        ),
        !(meaning(w, base, env, s, depth, fuel) is Breaks),
        !(meaning(w, base, env, s, depth, fuel) is Continues),
    decreases rounds, s, 0int,
{
    lemma_while_parts(f, g, s, at, h, next, falls);
    if let TypedStmtView::While { condition, body, span } = s {
        let (test, inside, exit) = (fresh(g, 0), fresh(g, 1), fresh(g, 2));
        let ready = while_ready(g, s, at);
        let (h1, end, on) = lowered_block(ready, body, inside)->Ok_0;
        let counted = lemma_enters(w, heap, env, f, test, depth, rounds);
        lemma_rest_ends(w, counted, env, f, test, depth, rounds);
        lemma_closes_with_branch(w, base, counted, env, f, test, depth, rounds);
        let b = decided(w, base, env, condition, depth)->Some_0;
        let left = (rounds - 1) as nat;
        if !b {
            let heap2 = lemma_enters(w, counted, env, f, exit, depth, left);
            (heap2, left)
        } else {
            let heap2 = lemma_enters(w, counted, env, f, inside, depth, left);
            let (heap3, left3) = lemma_block_runs(
                w,
                f,
                ready,
                body,
                inside,
                h1,
                end,
                on,
                base,
                heap2,
                env,
                depth,
                left,
                fuel,
                r,
            );
            match block_meaning(w, base, env, body, depth, fuel) {
                Outcome::Falls(after) => {
                    lemma_rest_ends(w, heap3, after, f, end, depth, left3);
                    lemma_closes_with_jump(w, heap3, after, f, end, depth, left3);
                    lemma_loop_runs(
                        w,
                        f,
                        g,
                        s,
                        at,
                        h,
                        next,
                        falls,
                        base,
                        heap3,
                        after,
                        depth,
                        (left3 - 1) as nat,
                        (fuel - 1) as nat,
                        r,
                    )
                },
                Outcome::Continues(after) => {
                    lemma_loop_runs(
                        w,
                        f,
                        g,
                        s,
                        at,
                        h,
                        next,
                        falls,
                        base,
                        heap3,
                        after,
                        depth,
                        left3,
                        (fuel - 1) as nat,
                        r,
                    )
                },
                Outcome::Breaks(after) => {
                    let heap4 = lemma_enters(w, heap3, after, f, exit, depth, left3);
                    (heap4, left3)
                },
                _ => (heap3, left3),
            }
        }
    } else {
        (heap, rounds)
    }
}

/// A block of statements.
proof fn lemma_block_runs(
    w: World,
    f: MirFunctionView,
    g: Graph,
    b: TypedBlockView,
    at: BlockId,
    h: Graph,
    next: BlockId,
    falls: bool,
    base: Heap,
    heap: Heap,
    env: Locals,
    depth: nat,
    rounds: nat,
    fuel: nat,
    r: Ran,
) -> (p: (Heap, nat))
    requires
        is_structured_block(b),
        is_clear(g),
        is_numbered(f),
        at.0 < g.blocks.len(),
        lowered_block(g, b, at) == Ok::<(Graph, BlockId, bool), mir::MirError>((h, next, falls)),
        is_in(f, g, h, at, next, falls),
        0 < rounds <= fuel,
        rest(
            w,
            heap,
            env,
            f,
            at,
            g.blocks[at.0 as int].instructions.len() as int,
            depth,
            rounds,
        ) == r,
        r is Ok,
    ensures
        came(
            w,
            f,
            g,
            next,
            h.blocks[next.0 as int].instructions.len() as int,
            falls,
            block_meaning(w, base, env, b, depth, fuel),
            p.0,
            p.1,
            depth,
            rounds,
            r,
        ),
    decreases rounds, b,
{
    let inside = Graph { defers: g.defers.push(Seq::empty()), ..g };
    assert(is_clear(inside));
    let (k, last, also) = lowered_statements(inside, b.statements, 0, at)->Ok_0;
    lemma_statements_leave(inside, b.statements, 0, at);
    assert(last == next && also == falls);
    let done = with_step(k, last, cleanup_step(k, k.defers.len() - 1));
    let n = next.0 as int;
    assert(is_in(f, inside, k, at, next, falls)) by {
        if falls {
            assert(h.blocks == done.blocks);
            assert forall|i: int|
                (i == at.0 || inside.blocks.len() <= i < k.blocks.len()) && !(falls && i
                    == next.0) implies #[trigger] f.blocks[i] == k.blocks[i] by {
                assert(f.blocks[i] == h.blocks[i]);
            }
            let a = k.blocks[n].instructions;
            let c = f.blocks[n].instructions;
            assert forall|i: int| 0 <= i < a.len() implies a[i] == c[i] by {
                assert(h.blocks[n].instructions[i] == a[i]);
            }
        } else {
            assert(h.blocks == k.blocks);
        }
    }
    let (first, left) = lemma_statements_run(
        w,
        f,
        inside,
        b.statements,
        0,
        at,
        k,
        next,
        falls,
        base,
        heap,
        env,
        depth,
        rounds,
        fuel,
        r,
    );
    match all_meaning(w, base, env, b.statements, 0, depth, fuel) {
        Outcome::Falls(after) => {
            let j = k.blocks[n].instructions.len() as int;
            assert(h.blocks[n].instructions[j] == cleanup_step(k, k.defers.len() - 1));
            assert(f.blocks[n].instructions[j] == h.blocks[n].instructions[j]);
            lemma_nothing_deferred(k.defers, k.defers.len() - 1);
            lemma_rest_steps(w, base, first, after, f, next, j, depth, left);
        },
        _ => {},
    }
    (first, left)
}

/// The statements from `i` on.
proof fn lemma_statements_run(
    w: World,
    f: MirFunctionView,
    g: Graph,
    ss: Seq<TypedStmtView>,
    i: int,
    at: BlockId,
    k: Graph,
    last: BlockId,
    falls: bool,
    base: Heap,
    heap: Heap,
    env: Locals,
    depth: nat,
    rounds: nat,
    fuel: nat,
    r: Ran,
) -> (p: (Heap, nat))
    requires
        are_structured(ss),
        0 <= i,
        is_clear(g),
        is_numbered(f),
        at.0 < g.blocks.len(),
        lowered_statements(g, ss, i, at) == Ok::<(Graph, BlockId, bool), mir::MirError>(
            (k, last, falls),
        ),
        is_in(f, g, k, at, last, falls),
        0 < rounds <= fuel,
        rest(
            w,
            heap,
            env,
            f,
            at,
            g.blocks[at.0 as int].instructions.len() as int,
            depth,
            rounds,
        ) == r,
        r is Ok,
    ensures
        came(
            w,
            f,
            g,
            last,
            k.blocks[last.0 as int].instructions.len() as int,
            falls,
            all_meaning(w, base, env, ss, i, depth, fuel),
            p.0,
            p.1,
            depth,
            rounds,
            r,
        ),
    decreases rounds, ss, ss.len() - i,
{
    if i >= ss.len() {
        (heap, rounds)
    } else {
        let (h, next, on) = lowered_statement(g, ss[i], at)->Ok_0;
        if on {
            lemma_statement_grows(g, ss[i], at);
            lemma_statements_grow(h, ss, i + 1, next);
            lemma_statement_leaves(g, ss[i], at);
            lemma_statements_leave(h, ss, i + 1, next);
            lemma_in_parts(f, g, h, k, at, next, last, falls);
        }
        let (first, left) = lemma_statement_runs(
            w,
            f,
            g,
            ss[i],
            at,
            h,
            next,
            on,
            base,
            heap,
            env,
            depth,
            rounds,
            fuel,
            r,
        );
        match meaning(w, base, env, ss[i], depth, fuel) {
            Outcome::Falls(after) => {
                lemma_statements_run(
                    w,
                    f,
                    h,
                    ss,
                    i + 1,
                    next,
                    k,
                    last,
                    falls,
                    base,
                    first,
                    after,
                    depth,
                    left,
                    fuel,
                    r,
                )
            },
            _ => (first, left),
        }
    }
}

/// What is in a function stays in it part by part.
proof fn lemma_in_parts(
    f: MirFunctionView,
    g: Graph,
    h: Graph,
    k: Graph,
    at: BlockId,
    next: BlockId,
    last: BlockId,
    falls: bool,
)
    requires
        at.0 < g.blocks.len(),
        leaves(g, h, at, next),
        leaves(h, k, next, last),
        is_in(f, g, k, at, last, falls),
    ensures
        is_in(f, g, h, at, next, true),
        is_in(f, h, k, next, last, falls),
{
    let n = next.0 as int;
    assert forall|i: int|
        (i == at.0 || g.blocks.len() <= i < h.blocks.len()) && i
            != n implies #[trigger] f.blocks[i] == h.blocks[i] by {
        assert(k.blocks[i] == h.blocks[i]);
    }
    let a = h.blocks[n].instructions;
    let b = k.blocks[n].instructions;
    let c = f.blocks[n].instructions;
    assert forall|i: int| 0 <= i < a.len() implies a[i] == c[i] by {
        assert(a[i] == b[i]);
        if falls && last == next {
            assert(b[i] == c[i]);
        } else {
            assert(f.blocks[n] == k.blocks[n]);
        }
    }
    assert(a.len() <= c.len()) by {
        if falls && last == next {
        } else {
            assert(f.blocks[n] == k.blocks[n]);
        }
    }
}

/// A function that is made into blocks gives the value that its body says: what
/// the first `return` that is reached gives, or nothing where there is none.
/// Bodies of pure expressions are covered that defer nothing.
pub proof fn lemma_functions_give_what_their_bodies_say(
    w: World,
    typed: TypedFunctionView,
    f: MirFunctionView,
    base: Heap,
    heap: Heap,
    env: Locals,
    depth: nat,
    rounds: nat,
    fuel: nat,
)
    requires
        is_structured_block(typed.body),
        lowered_function(typed) == Ok::<MirFunctionView, mir::MirError>(f),
        f.blocks.len() <= u32::MAX,
        rounds <= fuel,
        blocks_run(w, heap, env, f, f.entry, depth, rounds) is Ok,
    ensures
        match block_meaning(w, base, env, typed.body, depth, fuel) {
            Outcome::Gives(v) => blocks_run(w, heap, env, f, f.entry, depth, rounds)->Ok_0.0 == v,
            Outcome::Falls(_) => blocks_run(w, heap, env, f, f.entry, depth, rounds)->Ok_0.0
                == ValueView::Unit,
            _ => false,
        },
{
    let g = entry_graph();
    let at = BlockId(0);
    let r = blocks_run(w, heap, env, f, f.entry, depth, rounds);
    reveal(goes);
    let (h, end, falls) = lowered_block(g, typed.body, at)->Ok_0;
    lemma_blocks_grow(g, typed.body, at);
    lemma_block_leaves(g, typed.body, at);
    assert(is_numbered(f)) by {
        assert forall|i: int| 0 <= i < f.blocks.len() implies (#[trigger] f.blocks[i]).id.0
            == i by {
            assert(h.blocks[i].id.0 == i);
        }
    }
    let counted = lemma_enters(w, heap, env, f, at, depth, rounds);
    let (heap1, left) = lemma_block_runs(
        w,
        f,
        g,
        typed.body,
        at,
        h,
        end,
        falls,
        base,
        counted,
        env,
        depth,
        rounds,
        fuel,
        r,
    );
    if let Outcome::Falls(after) = block_meaning(w, base, env, typed.body, depth, fuel) {
        lemma_rest_ends(w, heap1, after, f, end, depth, left);
        lemma_closes_with_return(w, base, heap1, after, f, end, depth, left);
    }
}

} // verus!
