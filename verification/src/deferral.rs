//! Where an error leaves a function, exactly what is deferred there runs.
use crate::lexer::Span;
use crate::mir;
use crate::mir::{
    any_propagates, any_step_propagates, captured, deferred, fresh, joined_at, lowered_block,
    lemma_numbered, lowered_statement, lowered_statements, most_blocks, next_capture, prepared,
    prepared_for, propagates, step_propagates, with_deferred, with_end, with_step,
    with_three_blocks, BlockId, Flow, Graph, LoopView, MirCleanupView, MirInstructionView,
    MirTerminatorView,
};
use crate::typed::{LocalId, TypedBlockView, TypedExprView, TypedStmtView};
use vstd::prelude::*;

verus! {

// ---------------------------------------------------------------------------
// Blocks are only added
// ---------------------------------------------------------------------------

/// Lowering a block only adds blocks.
pub proof fn lemma_blocks_grow(g: Graph, b: TypedBlockView, at: BlockId)
    requires
        at.0 < g.blocks.len(),
    ensures
        lowered_block(g, b, at) matches Ok((h, last, _)) ==> g.blocks.len() <= h.blocks.len()
            && last.0 < h.blocks.len(),
    decreases b,
{
    broadcast use lemma_numbered;

    let inside = Graph { defers: g.defers.push(Seq::empty()), ..g };
    lemma_statements_grow(inside, b.statements, 0, at);
}

/// Lowering statements only adds blocks.
pub proof fn lemma_statements_grow(g: Graph, ss: Seq<TypedStmtView>, i: int, at: BlockId)
    requires
        at.0 < g.blocks.len(),
    ensures
        lowered_statements(g, ss, i, at) matches Ok((h, last, _)) ==> g.blocks.len()
            <= h.blocks.len() && last.0 < h.blocks.len(),
    decreases ss, ss.len() - i,
{
    broadcast use lemma_numbered;

    if 0 <= i < ss.len() {
        lemma_statement_grows(g, ss[i], at);
        if let Ok((h, next, falls)) = lowered_statement(g, ss[i], at) {
            if falls {
                lemma_statements_grow(h, ss, i + 1, next);
            }
        }
    }
}

proof fn lemma_preparing_grows(
    g: Graph,
    at: BlockId,
    propagating: bool,
    actions: Seq<MirCleanupView>,
)
    requires
        at.0 < g.blocks.len(),
    ensures
        ({
            let (p, b) = prepared(g, at, propagating, actions);
            g.blocks.len() <= p.blocks.len() && b.0 < p.blocks.len()
        }),
{
    broadcast use lemma_numbered;

    reveal(prepared);
}

/// Lowering a statement only adds blocks.
#[verifier::rlimit(30)]
pub proof fn lemma_statement_grows(g: Graph, s: TypedStmtView, at: BlockId)
    requires
        at.0 < g.blocks.len(),
    ensures
        lowered_statement(g, s, at) matches Ok((h, next, _)) ==> g.blocks.len() <= h.blocks.len()
            && next.0 < h.blocks.len(),
    decreases s, 1int,
{
    broadcast use lemma_numbered;

    match s {
        TypedStmtView::If { condition, .. } => {
            lemma_preparing_grows(g, at, propagates(condition), deferred(g.defers, 0));
            let (p, b) = prepared_for(g, at, propagates(condition));
            lemma_fork_grows(p, s, b);
            assert(lowered_statement(g, s, at) == forked(p, s, b));
        },
        TypedStmtView::While { .. } => {
            lemma_loop_grows(g, s, at);
        },
        TypedStmtView::Defer { arguments, span, .. } => {
            lemma_preparing_grows(g, at, any_propagates(arguments), deferred(g.defers, 0));
            let (p, b) = prepared_for(g, at, any_propagates(arguments));
            lemma_captured_grows(p, b, arguments, 0, Seq::empty(), span);
        },
        TypedStmtView::Declare { value, .. } => {
            lemma_preparing_grows(g, at, propagates(value), deferred(g.defers, 0));
        },
        TypedStmtView::Store { target, value, .. } => {
            lemma_preparing_grows(
                g,
                at,
                mir::place_propagates(target) || propagates(value),
                deferred(g.defers, 0),
            );
        },
        TypedStmtView::Expr { expression, .. } => {
            lemma_preparing_grows(g, at, propagates(expression), deferred(g.defers, 0));
        },
        TypedStmtView::Return { value, .. } => {
            let cleaned = with_step(g, at, mir::cleanup_step(g, 0));
            lemma_preparing_grows(
                cleaned,
                at,
                value matches Some(e) && propagates(e),
                Seq::empty(),
            );
        },
        _ => {},
    }
}

proof fn lemma_fork_grows(p: Graph, s: TypedStmtView, b: BlockId)
    requires
        s is If,
        b.0 < p.blocks.len(),
    ensures
        forked(p, s, b) matches Ok((h, next, _)) ==> p.blocks.len() <= h.blocks.len() && next.0
            < h.blocks.len(),
    decreases s, 0int,
{
    broadcast use lemma_numbered;

    let (yes, no, join) = (fresh(p, 0), fresh(p, 1), fresh(p, 2));
    let branch = MirTerminatorView::Branch {
        condition: s->If_condition,
        then_block: yes,
        else_block: no,
        span: s->If_span,
    };
    let ready = with_end(with_three_blocks(p), b, branch);
    lemma_blocks_grow(ready, s->If_then_branch, yes);
    if let Ok((h, end, falls)) = lowered_block(ready, s->If_then_branch, yes) {
        if let Some(other) = s->If_else_branch {
            lemma_blocks_grow(joined_at(h, end, falls, join), other, no);
        }
    }
}

proof fn lemma_loop_grows(g: Graph, s: TypedStmtView, at: BlockId)
    requires
        s is While,
        at.0 < g.blocks.len(),
    ensures
        lowered_statement(g, s, at) matches Ok((h, next, _)) ==> g.blocks.len() <= h.blocks.len()
            && next.0 < h.blocks.len(),
    decreases s, 0int,
{
    broadcast use lemma_numbered;

    let (test, inside, exit) = (fresh(g, 0), fresh(g, 1), fresh(g, 2));
    let branch = MirTerminatorView::Branch {
        condition: s->While_condition,
        then_block: inside,
        else_block: exit,
        span: s->While_span,
    };
    let ready = with_end(
        with_end(with_three_blocks(g), at, MirTerminatorView::Jump(test)),
        test,
        branch,
    );
    let around = LoopView { exit, next: test, depth: g.defers.len() as int };
    lemma_blocks_grow(Graph { loops: g.loops.push(around), ..ready }, s->While_body, inside);
}

proof fn lemma_captured_grows(
    g: Graph,
    at: BlockId,
    arguments: Seq<TypedExprView>,
    i: int,
    before: Seq<TypedExprView>,
    span: Span,
)
    requires
        at.0 < g.blocks.len(),
    ensures
        captured(g, at, arguments, i, before, span).0.blocks.len() == g.blocks.len(),
    decreases arguments.len() - i,
{
    broadcast use lemma_numbered;

    reveal(builds_on);
    if 0 <= i < arguments.len() {
        lemma_captured_grows(
            once_captured(g, at, arguments[i], span),
            at,
            arguments,
            i + 1,
            before.push(captured_load(g, arguments[i])),
            span,
        );
    }
}

/// The graph with one argument captured.
spec fn once_captured(g: Graph, at: BlockId, argument: TypedExprView, span: Span) -> Graph {
    let step = MirInstructionView::Declare {
        id: LocalId(g.capture),
        name: mir::capture_name(g.capture),
        ty: argument.ty(),
        mutable: false,
        value: argument,
        span,
    };
    Graph { capture: next_capture(g.capture), ..with_step(g, at, step) }
}

spec fn captured_load(g: Graph, argument: TypedExprView) -> TypedExprView {
    TypedExprView::Load {
        id: LocalId(g.capture),
        name: mir::capture_name(g.capture),
        ty: argument.ty(),
        span: argument.span(),
    }
}

// ---------------------------------------------------------------------------
// What lowering keeps
// ---------------------------------------------------------------------------

/// Whether the block lists exactly what the scopes around have deferred, or a
/// `?` in it needs a shorter list.
pub open spec fn is_settled(g: Graph, at: BlockId) -> bool {
    let all = deferred(g.defers, 0);
    &&& g.cleanup.len() == g.blocks.len()
    &&& at.0 < g.blocks.len() <= most_blocks()
    &&& g.cleanup[at.0 as int] == all || (any_step_propagates(
        g.blocks[at.0 as int].instructions,
    ) && g.cleanup[at.0 as int].len() < all.len())
}

/// Whether the lists and the steps of a graph stay as they are in another, but
/// for more steps in one block and the way in which that block ends. The list
/// of that block changes only if no `?` stands in it.
#[verifier::opaque]
pub open spec fn builds_on(g: Graph, h: Graph, at: BlockId) -> bool {
    &&& g.blocks.len() <= h.blocks.len()
    &&& h.cleanup.len() == h.blocks.len()
    &&& g.defers.len() == h.defers.len()
    &&& g.defers.drop_last() == h.defers.drop_last()
    &&& forall|i: int|
        0 <= i < g.cleanup.len() && i != at.0 ==> #[trigger] h.cleanup[i] == g.cleanup[i]
    &&& forall|i: int|
        0 <= i < g.blocks.len() && i != at.0 ==> #[trigger] h.blocks[i] == g.blocks[i]
    &&& g.blocks[at.0 as int].instructions.is_prefix_of(h.blocks[at.0 as int].instructions)
    &&& any_step_propagates(g.blocks[at.0 as int].instructions) ==> h.cleanup[at.0 as int]
        == g.cleanup[at.0 as int]
}

/// A `?` stays where it stands.
proof fn lemma_more_steps(a: Seq<MirInstructionView>, b: Seq<MirInstructionView>)
    requires
        a.is_prefix_of(b),
        any_step_propagates(a),
    ensures
        any_step_propagates(b),
{
    let i = choose|i: int| 0 <= i < a.len() && step_propagates(#[trigger] a[i]);
    assert(b[i] == a[i]);
}

proof fn lemma_builds_further(g: Graph, h: Graph, k: Graph, at: BlockId, next: BlockId)
    requires
        g.cleanup.len() == g.blocks.len(),
        at.0 < g.blocks.len(),
        next.0 < h.blocks.len(),
        builds_on(g, h, at),
        builds_on(h, k, next),
        next == at || g.blocks.len() <= next.0,
    ensures
        builds_on(g, k, at),
{
    reveal(builds_on);
    if any_step_propagates(g.blocks[at.0 as int].instructions) {
        lemma_more_steps(
            g.blocks[at.0 as int].instructions,
            h.blocks[at.0 as int].instructions,
        );
    }
    assert forall|i: int| 0 <= i < g.cleanup.len() && i != at.0 implies #[trigger] k.cleanup[i]
        == g.cleanup[i] by {
        assert(h.cleanup[i] == g.cleanup[i]);
    }
    assert forall|i: int| 0 <= i < g.blocks.len() && i != at.0 implies #[trigger] k.blocks[i]
        == g.blocks[i] by {
        assert(h.blocks[i] == g.blocks[i]);
    }
}

/// A place for an expression with `?` lists just the calls given.
proof fn lemma_prepared(
    g: Graph,
    at: BlockId,
    propagating: bool,
    actions: Seq<MirCleanupView>,
)
    requires
        g.cleanup.len() == g.blocks.len(),
        at.0 < g.blocks.len(),
        g.cleanup[at.0 as int].len() == actions.len() ==> g.cleanup[at.0 as int] == actions,
    ensures
        ({
            let (p, b) = prepared(g, at, propagating, actions);
            &&& p.defers == g.defers
            &&& p.blocks.len() <= most_blocks() ==> {
                &&& builds_on(g, p, at)
                &&& b == at || (b.0 == g.blocks.len() && p.blocks[b.0 as int].instructions.len()
                    == 0)
                &&& b == at ==> p.blocks == g.blocks
                &&& b.0 < p.blocks.len()
                &&& propagating ==> p.cleanup[b.0 as int] == actions
                &&& !propagating ==> (p, b) == (g, at)
            }
        }),
{
    broadcast use lemma_numbered;

    reveal(builds_on);
    reveal(prepared);
}

proof fn lemma_captured_builds_on(
    g: Graph,
    at: BlockId,
    arguments: Seq<TypedExprView>,
    i: int,
    before: Seq<TypedExprView>,
    span: Span,
)
    requires
        g.cleanup.len() == g.blocks.len(),
        at.0 < g.blocks.len(),
    ensures
        ({
            let h = captured(g, at, arguments, i, before, span).0;
            &&& builds_on(g, h, at)
            &&& h.defers == g.defers
            &&& h.cleanup == g.cleanup
            &&& h.blocks.len() == g.blocks.len()
            &&& (exists|k: int| 0 <= i <= k < arguments.len()
                && propagates(#[trigger] arguments[k]))
                ==> any_step_propagates(h.blocks[at.0 as int].instructions)
        }),
    decreases arguments.len() - i,
{
    broadcast use lemma_numbered;

    reveal(builds_on);
    if 0 <= i < arguments.len() {
        let more = once_captured(g, at, arguments[i], span);
        let h = captured(g, at, arguments, i, before, span).0;
        lemma_captured_builds_on(
            more,
            at,
            arguments,
            i + 1,
            before.push(captured_load(g, arguments[i])),
            span,
        );
        let steps = more.blocks[at.0 as int].instructions;
        if propagates(arguments[i]) {
            assert(step_propagates(steps[steps.len() - 1]));
            lemma_more_steps(steps, h.blocks[at.0 as int].instructions);
        }
    }
}

/// What a new scope has deferred so far, which is nothing, adds nothing.
proof fn lemma_new_scopes_defer_nothing(defers: Seq<Seq<MirCleanupView>>)
    ensures
        deferred(defers.push(Seq::empty()), 0) == deferred(defers, 0),
{
    let more = defers.push(Seq::<MirCleanupView>::empty());
    assert(more.drop_last() =~= defers);
    assert(Seq::<MirCleanupView>::empty().reverse() + deferred(defers, 0) =~= deferred(defers, 0));
}

/// A block of statements keeps what a statement keeps.
pub proof fn lemma_blocks_keep_lists(g: Graph, b: TypedBlockView, at: BlockId)
    requires
        is_settled(g, at),
    ensures
        lowered_block(g, b, at) matches Ok((h, last, falls)) ==> (h.blocks.len() <= most_blocks()
            ==> builds_on(g, h, at) && h.defers == g.defers && (last == at || g.blocks.len()
            <= last.0) && last.0 < h.blocks.len()),
    decreases b, 0int,
{
    broadcast use lemma_numbered;

    reveal(builds_on);
    let inside = Graph { defers: g.defers.push(Seq::empty()), ..g };
    lemma_new_scopes_defer_nothing(g.defers);
    lemma_statements_keep_lists(inside, b.statements, 0, at);
    assert(inside.defers.drop_last() =~= g.defers);
    if let Ok((h, last, falls)) = lowered_statements(inside, b.statements, 0, at) {
        if h.blocks.len() <= most_blocks() && falls {
            let done = with_step(h, last, mir::cleanup_step(h, h.defers.len() - 1));
            assert(builds_on(h, done, last));
            lemma_builds_further(inside, h, done, at, last);
        }
    }
}

proof fn lemma_statements_keep_lists(g: Graph, ss: Seq<TypedStmtView>, i: int, at: BlockId)
    requires
        g.defers.len() > 0,
        is_settled(g, at),
    ensures
        lowered_statements(g, ss, i, at) matches Ok((h, last, falls)) ==> (h.blocks.len()
            <= most_blocks() ==> builds_on(g, h, at) && (last == at || g.blocks.len() <= last.0)
            && last.0 < h.blocks.len()),
    decreases ss, ss.len() - i,
{
    broadcast use lemma_numbered;

    reveal(builds_on);
    if 0 <= i < ss.len() {
        lemma_propagation_runs_what_is_deferred(g, ss[i], at);
        lemma_statement_grows(g, ss[i], at);
        if let Ok((h, next, falls)) = lowered_statement(g, ss[i], at) {
            if falls {
                lemma_statements_grow(h, ss, i + 1, next);
            }
            if falls && h.blocks.len() <= most_blocks() {
                lemma_statements_keep_lists(h, ss, i + 1, next);
                if let Ok((k, last, _)) = lowered_statements(h, ss, i + 1, next) {
                    if k.blocks.len() <= most_blocks() {
                        lemma_builds_further(g, h, k, at, next);
                    }
                }
            }
        }
    }
}

/// What lowering a statement into block `at` keeps. Where `?` stands in its own
/// expressions, these go to a block that lists exactly what is deferred before
/// the statement; for a value that is returned, nothing, since what is deferred
/// has run by then. The lists that a `?` needs never change. Without `?` the
/// expressions go to block `at`, and no block starts.
pub open spec fn keeps_lists(g: Graph, s: TypedStmtView, at: BlockId, flow: Flow) -> bool {
    let all = deferred(g.defers, 0);
    flow matches Ok((h, next, falls)) ==> (h.blocks.len() <= most_blocks() ==> {
        &&& builds_on(g, h, at)
        &&& next == at || g.blocks.len() <= next.0
        &&& next.0 < h.blocks.len()
        &&& falls ==> is_settled(h, next)
        &&& match s {
            TypedStmtView::If { condition, .. } => {
                let b = prepared_for(g, at, propagates(condition)).1;
                &&& b == at || (propagates(condition) && b.0 == g.blocks.len())
                &&& h.blocks[b.0 as int].terminator matches MirTerminatorView::Branch {
                    condition: tested,
                    ..
                } && tested == condition
                &&& propagates(condition) ==> h.cleanup[b.0 as int] == all
            },
            TypedStmtView::While { condition, .. } => {
                let test = g.blocks.len() as int;
                &&& h.cleanup[test] == all
                &&& h.blocks[test].instructions.len() == 0
                &&& h.blocks[test].terminator matches MirTerminatorView::Branch {
                    condition: tested,
                    ..
                } && tested == condition
            },
            TypedStmtView::Return { value, .. } => {
                let propagating = value matches Some(e) && propagates(e);
                &&& h.blocks[next.0 as int].terminator == MirTerminatorView::Return(value)
                &&& propagating ==> h.cleanup[next.0 as int].len() == 0
                &&& !propagating ==> next == at && h.blocks.len() == g.blocks.len()
            },
            TypedStmtView::Defer { arguments, .. } => {
                &&& any_propagates(arguments) ==> h.cleanup[next.0 as int] == all
                &&& !any_propagates(arguments) ==> next == at && h.blocks.len() == g.blocks.len()
            },
            TypedStmtView::Declare { id, name, ty, mutable, value, span } => step_stands(
                g,
                h,
                at,
                next,
                MirInstructionView::Declare { id, name, ty, mutable, value, span },
            ),
            TypedStmtView::Store { target, value, ty, span } => step_stands(
                g,
                h,
                at,
                next,
                MirInstructionView::Store { target, value, ty, span },
            ),
            TypedStmtView::Expr { expression, span } => step_stands(
                g,
                h,
                at,
                next,
                MirInstructionView::Expr { expression, span },
            ),
            _ => next == at && h.blocks.len() == g.blocks.len(),
        }
    })
}

/// Whether a step is the last of a block, which lists what is deferred if `?`
/// stands in the step, and is block `at` if not.
pub open spec fn step_stands(
    g: Graph,
    h: Graph,
    at: BlockId,
    next: BlockId,
    step: MirInstructionView,
) -> bool {
    let steps = h.blocks[next.0 as int].instructions;
    &&& steps.len() > 0 && steps.last() == step
    &&& step_propagates(step) ==> h.cleanup[next.0 as int] == deferred(g.defers, 0)
    &&& !step_propagates(step) ==> next == at && h.blocks.len() == g.blocks.len()
}

/// At each `?` exactly what was deferred before it, and has not run, runs: a
/// `?` stands in a block that lists just that, and lowering keeps the lists.
#[verifier::rlimit(30)]
pub proof fn lemma_propagation_runs_what_is_deferred(g: Graph, s: TypedStmtView, at: BlockId)
    requires
        g.defers.len() > 0,
        is_settled(g, at),
    ensures
        keeps_lists(g, s, at, lowered_statement(g, s, at)),
    decreases s, 2int,
{
    broadcast use lemma_numbered;

    reveal(builds_on);
    match s {
        TypedStmtView::If { .. } => {
            lemma_branches_keep_lists(g, s, at);
        },
        TypedStmtView::While { .. } => {
            lemma_loops_keep_lists(g, s, at);
        },
        TypedStmtView::Defer { .. } => {
            lemma_defers_keep_lists(g, s, at);
        },
        TypedStmtView::Return { value, .. } => {
            let cleaned = with_step(g, at, mir::cleanup_step(g, 0));
            let propagating = value matches Some(e) && propagates(e);
            assert(builds_on(g, cleaned, at));
            if cleaned.cleanup[at.0 as int].len() == 0 {
                assert(cleaned.cleanup[at.0 as int] =~= Seq::empty());
            }
            lemma_prepared(cleaned, at, propagating, Seq::empty());
            let (p, b) = prepared(cleaned, at, propagating, Seq::empty());
            let h = with_end(p, b, MirTerminatorView::Return(value));
            if h.blocks.len() <= most_blocks() {
                lemma_builds_further(g, cleaned, p, at, at);
                assert(builds_on(p, h, b));
                lemma_builds_further(g, p, h, at, b);
            }
        },
        TypedStmtView::Declare { id, name, ty, mutable, value, span } => {
            lemma_steps_keep_lists(
                g,
                at,
                MirInstructionView::Declare { id, name, ty, mutable, value, span },
            );
        },
        TypedStmtView::Store { target, value, ty, span } => {
            lemma_steps_keep_lists(g, at, MirInstructionView::Store { target, value, ty, span });
        },
        TypedStmtView::Expr { expression, span } => {
            lemma_steps_keep_lists(g, at, MirInstructionView::Expr { expression, span });
        },
        _ => {},
    }
}

proof fn lemma_steps_keep_lists(g: Graph, at: BlockId, step: MirInstructionView)
    requires
        is_settled(g, at),
    ensures
        ({
            let (h, next, _) = mir::stepped(g, at, step);
            h.blocks.len() <= most_blocks() ==> {
                &&& builds_on(g, h, at)
                &&& next == at || g.blocks.len() <= next.0
                &&& next.0 < h.blocks.len()
                &&& is_settled(h, next)
                &&& step_stands(g, h, at, next, step)
            }
        }),
{
    broadcast use lemma_numbered;

    reveal(builds_on);
    let all = deferred(g.defers, 0);
    lemma_prepared(g, at, step_propagates(step), all);
    let (p, b) = prepared_for(g, at, step_propagates(step));
    let h = with_step(p, b, step);
    if h.blocks.len() <= most_blocks() {
        assert(builds_on(p, h, b));
        lemma_builds_further(g, p, h, at, b);
        if any_step_propagates(p.blocks[b.0 as int].instructions) {
            lemma_more_steps(p.blocks[b.0 as int].instructions, h.blocks[b.0 as int].instructions);
        }
    }
}

proof fn lemma_one_more_deferred(defers: Seq<Seq<MirCleanupView>>, call: MirCleanupView)
    requires
        defers.len() > 0,
    ensures
        ({
            let more = defers.drop_last().push(defers.last().push(call));
            &&& more.drop_last() == defers.drop_last()
            &&& more.len() == defers.len()
            &&& deferred(more, 0).len() == deferred(defers, 0).len() + 1
        }),
{
    let more = defers.drop_last().push(defers.last().push(call));
    assert(more.drop_last() =~= defers.drop_last());
    assert(defers.last().push(call).reverse().len() == defers.last().len() + 1);
}

#[verifier::rlimit(30)]
proof fn lemma_defers_keep_lists(g: Graph, s: TypedStmtView, at: BlockId)
    requires
        s is Defer,
        g.defers.len() > 0,
        is_settled(g, at),
    ensures
        keeps_lists(g, s, at, lowered_statement(g, s, at)),
{
    broadcast use lemma_numbered;

    reveal(builds_on);
    if let TypedStmtView::Defer { function, name, arguments, span } = s {
        let all = deferred(g.defers, 0);
        lemma_prepared(g, at, any_propagates(arguments), all);
        let (p, b) = prepared_for(g, at, any_propagates(arguments));
        lemma_preparing_grows(g, at, any_propagates(arguments), all);
        lemma_captured_grows(p, b, arguments, 0, Seq::empty(), span);
        if p.blocks.len() <= most_blocks() {
            lemma_captured_builds_on(p, b, arguments, 0, Seq::empty(), span);
            let (h, loads) = captured(p, b, arguments, 0, Seq::empty(), span);
            lemma_builds_further(g, p, h, at, b);
            let call = MirCleanupView { function, name, arguments: loads, span };
            lemma_one_more_deferred(h.defers, call);
            let last = with_deferred(h, b, call);
            assert(builds_on(h, last, b));
            lemma_builds_further(g, h, last, at, b);
            if any_step_propagates(p.blocks[b.0 as int].instructions) {
                lemma_more_steps(
                    p.blocks[b.0 as int].instructions,
                    h.blocks[b.0 as int].instructions,
                );
            }
            if any_propagates(arguments) {
                let k = choose|k: int| 0 <= k < arguments.len()
                    && propagates(#[trigger] arguments[k]);
                assert(propagates(arguments[k]));
            }
        }
    }
}

/// A block that ends builds on.
proof fn lemma_end_builds(g: Graph, id: BlockId, end: MirTerminatorView)
    requires
        g.cleanup.len() == g.blocks.len(),
        id.0 < g.blocks.len(),
    ensures
        builds_on(g, with_end(g, id, end), id),
{
    reveal(builds_on);
}

/// What there is but for one block stays.
proof fn lemma_kept(g: Graph, h: Graph, at: BlockId, i: int)
    requires
        builds_on(g, h, at),
        g.cleanup.len() == g.blocks.len(),
        0 <= i < g.blocks.len(),
        i != at.0,
    ensures
        h.blocks[i] == g.blocks[i],
        h.cleanup[i] == g.cleanup[i],
        h.cleanup.len() == h.blocks.len(),
        g.blocks.len() <= h.blocks.len(),
{
    reveal(builds_on);
}

proof fn lemma_fork_builds(g: Graph, at: BlockId, branch: MirTerminatorView)
    requires
        g.cleanup.len() == g.blocks.len(),
        at.0 < g.blocks.len(),
        g.blocks.len() + 3 <= most_blocks(),
    ensures
        ({
            let h = with_end(with_three_blocks(g), at, branch);
            &&& builds_on(g, h, at)
            &&& h.blocks.len() == g.blocks.len() + 3
            &&& h.cleanup.len() == h.blocks.len()
            &&& h.defers == g.defers
            &&& h.blocks[at.0 as int].terminator == branch
            &&& h.cleanup[at.0 as int] == g.cleanup[at.0 as int]
            &&& forall|i: int|
                g.blocks.len() <= i < h.blocks.len() ==> #[trigger] h.cleanup[i] == deferred(
                    g.defers,
                    0,
                )
        }),
{
    broadcast use lemma_numbered;

    reveal(builds_on);
}

/// A block of statements that is lowered into a new block and leads to where
/// branches meet.
proof fn lemma_branch_joins(g: Graph, b: TypedBlockView, at: BlockId, join: BlockId)
    requires
        is_settled(g, at),
    ensures
        lowered_block(g, b, at) matches Ok((h, end, falls)) ==> {
            let done = joined_at(h, end, falls, join);
            &&& done.blocks.len() == h.blocks.len() >= g.blocks.len()
            &&& h.blocks.len() <= most_blocks()
                ==> builds_on(g, done, at) && done.defers == g.defers
                && done.cleanup.len() == done.blocks.len()
        },
    decreases b, 1int,
{
    broadcast use lemma_numbered;

    lemma_blocks_grow(g, b, at);
    lemma_blocks_keep_lists(g, b, at);
    if let Ok((h, end, falls)) = lowered_block(g, b, at) {
        if h.blocks.len() <= most_blocks() {
            let done = joined_at(h, end, falls, join);
            assert(h.cleanup.len() == h.blocks.len()) by {
                reveal(builds_on);
            }
            assert(builds_on(h, done, end)) by {
                if falls {
                    lemma_end_builds(h, end, MirTerminatorView::Jump(join));
                } else {
                    reveal(builds_on);
                }
            }
            lemma_builds_further(g, h, done, at, end);
        }
    }
}

/// What an `if` comes to, once there is a place for its condition.
spec fn forked(p: Graph, s: TypedStmtView, b: BlockId) -> Flow {
    let (yes, no, join) = (fresh(p, 0), fresh(p, 1), fresh(p, 2));
    let branch = MirTerminatorView::Branch {
        condition: s->If_condition,
        then_block: yes,
        else_block: no,
        span: s->If_span,
    };
    match lowered_block(with_end(with_three_blocks(p), b, branch), s->If_then_branch, yes) {
        Err(error) => Err(error),
        Ok((h, end, falls)) => {
            let first = joined_at(h, end, falls, join);
            match s->If_else_branch {
                None => Ok((joined_at(first, no, true, join), join, true)),
                Some(other) => match lowered_block(first, other, no) {
                    Err(error) => Err(error),
                    Ok((k, last, also)) => Ok(
                        (joined_at(k, last, also, join), join, falls || also),
                    ),
                },
            }
        },
    }
}

/// Whether both branches are built on a block that ends with the condition.
spec fn is_fork(p: Graph, s: TypedStmtView, b: BlockId, h: Graph, next: BlockId) -> bool {
    &&& builds_on(p, h, b)
    &&& next.0 == p.blocks.len() + 2
    &&& next.0 < h.blocks.len()
    &&& h.cleanup.len() == h.blocks.len()
    &&& h.cleanup[next.0 as int] == deferred(p.defers, 0)
    &&& h.defers == p.defers
    &&& h.cleanup[b.0 as int] == p.cleanup[b.0 as int]
    &&& h.blocks[b.0 as int].terminator matches MirTerminatorView::Branch { condition, .. }
        && condition == s->If_condition
}

#[verifier::rlimit(30)]
proof fn lemma_forked(p: Graph, s: TypedStmtView, b: BlockId)
    requires
        s is If,
        p.cleanup.len() == p.blocks.len(),
        b.0 < p.blocks.len(),
    ensures
        forked(p, s, b) matches Ok((h, next, _)) ==> p.blocks.len() + 3 <= h.blocks.len() && (
        h.blocks.len() <= most_blocks() ==> is_fork(p, s, b, h, next)),
    decreases s, 0int,
{
    broadcast use lemma_numbered;

    let (yes, no, join) = (fresh(p, 0), fresh(p, 1), fresh(p, 2));
    let branch = MirTerminatorView::Branch {
        condition: s->If_condition,
        then_block: yes,
        else_block: no,
        span: s->If_span,
    };
    let ready = with_end(with_three_blocks(p), b, branch);
    lemma_blocks_grow(ready, s->If_then_branch, yes);
    if let Ok((h, end, falls)) = lowered_block(ready, s->If_then_branch, yes) {
        let first = joined_at(h, end, falls, join);
        if let Some(other) = s->If_else_branch {
            lemma_blocks_grow(first, other, no);
        }
        if h.blocks.len() <= most_blocks() {
            lemma_fork_builds(p, b, branch);
            lemma_branch_joins(ready, s->If_then_branch, yes, join);
            lemma_kept(ready, first, yes, join.0 as int);
            lemma_kept(ready, first, yes, no.0 as int);
            lemma_kept(ready, first, yes, b.0 as int);
            lemma_builds_apart(p, ready, first, b, yes);
            match s->If_else_branch {
                Some(other) => {
                    lemma_branch_joins(first, other, no, join);
                    if let Ok((k, last, also)) = lowered_block(first, other, no) {
                        if k.blocks.len() <= most_blocks() {
                            let done = joined_at(k, last, also, join);
                            lemma_builds_apart(p, first, done, b, no);
                            lemma_kept(first, done, no, join.0 as int);
                            lemma_kept(first, done, no, b.0 as int);
                        }
                    }
                },
                None => {
                    let done = joined_at(first, no, true, join);
                    lemma_end_builds(first, no, MirTerminatorView::Jump(join));
                    lemma_builds_apart(p, first, done, b, no);
                    lemma_kept(first, done, no, join.0 as int);
                    lemma_kept(first, done, no, b.0 as int);
                },
            }
        }
    }
}

proof fn lemma_branches_keep_lists(g: Graph, s: TypedStmtView, at: BlockId)
    requires
        s is If,
        g.defers.len() > 0,
        is_settled(g, at),
    ensures
        keeps_lists(g, s, at, lowered_statement(g, s, at)),
    decreases s, 1int,
{
    broadcast use lemma_numbered;

    let condition = s->If_condition;
    let all = deferred(g.defers, 0);
    lemma_prepared(g, at, propagates(condition), all);
    lemma_preparing_grows(g, at, propagates(condition), all);
    let (p, b) = prepared_for(g, at, propagates(condition));
    assert(lowered_statement(g, s, at) == forked(p, s, b));
    lemma_prepared_lists(g, at, propagates(condition), all);
    lemma_forked(p, s, b);
    if let Ok((h, next, _)) = forked(p, s, b) {
        if h.blocks.len() <= most_blocks() {
            lemma_builds_further(g, p, h, at, b);
        }
    }
}

/// Every block has a list.
proof fn lemma_prepared_lists(
    g: Graph,
    at: BlockId,
    propagating: bool,
    actions: Seq<MirCleanupView>,
)
    requires
        g.cleanup.len() == g.blocks.len(),
        at.0 < g.blocks.len(),
    ensures
        ({
            let (p, b) = prepared(g, at, propagating, actions);
            p.cleanup.len() == p.blocks.len()
        }),
{
    broadcast use lemma_numbered;

    reveal(prepared);
}

/// What builds on a block that is not there yet changes nothing there is.
proof fn lemma_builds_apart(g: Graph, h: Graph, k: Graph, at: BlockId, new: BlockId)
    requires
        g.cleanup.len() == g.blocks.len(),
        at.0 < g.blocks.len() <= new.0,
        new.0 < h.blocks.len(),
        builds_on(g, h, at),
        builds_on(h, k, new),
    ensures
        builds_on(g, k, at),
{
    lemma_builds_further(g, h, k, at, new);
}

#[verifier::rlimit(30)]
proof fn lemma_loops_keep_lists(g: Graph, s: TypedStmtView, at: BlockId)
    requires
        s is While,
        g.defers.len() > 0,
        is_settled(g, at),
    ensures
        keeps_lists(g, s, at, lowered_statement(g, s, at)),
    decreases s, 0int,
{
    broadcast use lemma_numbered;

    reveal(builds_on);
    if let TypedStmtView::While { condition, body, span } = s {
        let (test, inside, exit) = (fresh(g, 0), fresh(g, 1), fresh(g, 2));
        let branch = MirTerminatorView::Branch {
            condition,
            then_block: inside,
            else_block: exit,
            span,
        };
        let ready = with_end(
            with_end(with_three_blocks(g), at, MirTerminatorView::Jump(test)),
            test,
            branch,
        );
        let around = LoopView { exit, next: test, depth: g.defers.len() as int };
        let looped = Graph { loops: g.loops.push(around), ..ready };
        lemma_blocks_grow(looped, body, inside);
        if ready.blocks.len() <= most_blocks() {
            assert(builds_on(g, looped, at));
            lemma_blocks_keep_lists(looped, body, inside);
            if let Ok((h, end, falls)) = lowered_block(looped, body, inside) {
                if h.blocks.len() <= most_blocks() {
                    let left = Graph { loops: h.loops.drop_last(), ..h };
                    let done = joined_at(left, end, falls, test);
                    assert(builds_on(h, done, end));
                    lemma_builds_further(looped, h, done, inside, end);
                    lemma_builds_apart(g, looped, done, at, inside);
                    assert(done.cleanup[test.0 as int] == looped.cleanup[test.0 as int]);
                    assert(done.cleanup[exit.0 as int] == looped.cleanup[exit.0 as int]);
                    assert(done.blocks[test.0 as int] == looped.blocks[test.0 as int]);
                }
            }
        }
    }
}

} // verus!
