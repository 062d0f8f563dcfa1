//! What a call hands to the function it calls.
use crate::execution::{
    blocks_run, bound, called, typed_function_by_id, Heap, Locals, World, MAX_STEPS,
};
use crate::interpreter::ValueView;
use crate::mir::{function_by_id, MirFunctionView};
use crate::typed::{FunctionId, TypedParameterView};
use crate::ast::ParameterView;
use crate::typing::{lowered_parameters, with_local, Context, Frame};
use vstd::prelude::*;

verus! {

/// Whether no two parameters have the same identity.
pub open spec fn have_their_own_identities(params: Seq<TypedParameterView>) -> bool {
    forall|i: int, j: int|
        0 <= i < j < params.len() ==> (#[trigger] params[i]).id != (#[trigger] params[j]).id
}

/// Whether the locals are the parameters, each with the argument in its place.
pub open spec fn holds_arguments(
    locals: Locals,
    params: Seq<TypedParameterView>,
    values: Seq<ValueView>,
) -> bool {
    &&& forall|i: int|
        0 <= i < params.len() && i < values.len() ==> locals.dom().contains(
            (#[trigger] params[i]).id.0,
        ) && locals[params[i].id.0] == values[i]
    &&& forall|id: u32| #[trigger]
        locals.dom().contains(id) ==> exists|i: int|
            0 <= i < params.len() && (#[trigger] params[i]).id.0 == id
}

/// Whether one of the parameters from `i` on has the identity.
spec fn is_named(params: Seq<TypedParameterView>, i: int, id: u32) -> bool {
    exists|k: int| i <= k < params.len() && (#[trigger] params[k]).id.0 == id
}

proof fn lemma_bound(
    params: Seq<TypedParameterView>,
    values: Seq<ValueView>,
    i: int,
    env: Locals,
)
    requires
        0 <= i <= params.len(),
        values.len() == params.len(),
        have_their_own_identities(params),
    ensures
        ({
            let all = bound(params, values, i, env);
            &&& forall|k: int|
                i <= k < params.len() ==> all.dom().contains((#[trigger] params[k]).id.0)
                    && all[params[k].id.0] == values[k]
            &&& forall|id: u32| #[trigger]
                all.dom().contains(id) <==> env.dom().contains(id) || is_named(params, i, id)
            &&& forall|id: u32|
                !is_named(params, i, id) && env.dom().contains(id) ==> #[trigger] all[id] == env[id]
        }),
    decreases params.len() - i,
{
    if i < params.len() {
        let own = params[i].id.0;
        let more = env.insert(own, values[i]);
        lemma_bound(params, values, i + 1, more);
        let all = bound(params, values, i, env);
        assert(all == bound(params, values, i + 1, more));
        assert(!is_named(params, i + 1, own)) by {
            assert forall|k: int| i + 1 <= k < params.len() implies (#[trigger] params[k]).id.0
                != own by {
                assert(params[i].id != params[k].id);
            }
        }
        assert(more.dom().contains(own));
        assert(all[own] == values[i]);
        assert forall|id: u32| #[trigger] all.dom().contains(id) <==> env.dom().contains(id)
            || is_named(params, i, id) by {
            if is_named(params, i, id) && !is_named(params, i + 1, id) {
                let k = choose|k: int| i <= k < params.len() && (#[trigger] params[k]).id.0 == id;
                assert(k == i);
            }
            assert(params[i].id.0 == own);
        }
        assert forall|id: u32| !is_named(params, i, id) && env.dom().contains(
            id,
        ) implies #[trigger] all[id] == env[id] by {
            assert(params[i].id.0 == own);
            assert(!is_named(params, i + 1, id));
        }
    }
}

/// A function starts with exactly its parameters as locals, and the local of
/// each parameter holds the argument in the same place of the call.
pub proof fn lemma_arguments_reach_their_parameters(
    w: World,
    heap: Heap,
    f: MirFunctionView,
    id: FunctionId,
    values: Seq<ValueView>,
    locals: Locals,
    depth: nat,
)
    requires
        depth > 0,
        typed_function_by_id(w.program.functions, 0, id) matches Some(typed) && !typed.is_extern,
        function_by_id(w.mir.functions, 0, id) == Some(f),
        f.params.len() == values.len(),
        have_their_own_identities(f.params),
        holds_arguments(locals, f.params, values),
    ensures
        called(w, heap, id, values, depth) == blocks_run(
            w,
            heap,
            locals,
            f,
            f.entry,
            (depth - 1) as nat,
            (MAX_STEPS + 1) as nat,
        ),
{
    let start = bound(f.params, values, 0, Map::empty());
    lemma_bound(f.params, values, 0, Map::empty());
    assert forall|k: u32| start.dom().contains(k) == #[trigger] locals.dom().contains(k) by {
        if locals.dom().contains(k) {
            let i = choose|i: int| 0 <= i < f.params.len() && (#[trigger] f.params[i]).id.0 == k;
            assert(start.dom().contains(f.params[i].id.0));
        }
        if start.dom().contains(k) {
            assert(!Map::<u32, ValueView>::empty().dom().contains(k));
            let i = choose|i: int| 0 <= i < f.params.len() && (#[trigger] f.params[i]).id.0 == k;
            assert(locals.dom().contains(f.params[i].id.0));
        }
    }
    assert forall|k: u32| #[trigger] start.dom().contains(k) implies start[k] == locals[k] by {
        let i = choose|i: int| 0 <= i < f.params.len() && (#[trigger] f.params[i]).id.0 == k;
        assert(locals[f.params[i].id.0] == values[i]);
        assert(start[f.params[i].id.0] == values[i]);
    }
    assert(start =~= locals);
}

/// Parameters are numbered in order, so each has an identity of its own.
pub proof fn lemma_parameters_are_numbered(
    ctx: Context,
    frame: Frame,
    params: Seq<ParameterView>,
    i: int,
    before: Seq<TypedParameterView>,
)
    requires
        0 <= i <= params.len() < u32::MAX,
        before.len() == i,
        frame.next == i,
        forall|k: int| 0 <= k < i ==> (#[trigger] before[k]).id.0 == k,
    ensures
        lowered_parameters(ctx, frame, params, i, before) matches Ok((all, _)) ==> {
            &&& all.len() == params.len()
            &&& forall|k: int| 0 <= k < all.len() ==> (#[trigger] all[k]).id.0 == k
            &&& forall|k: int| 0 <= k < i ==> #[trigger] all[k] == before[k]
            &&& forall|k: int|
                i <= k < all.len() ==> (#[trigger] all[k]).name == params[k].name && all[k].ty
                    == crate::typing::resolved(ctx, params[k].ty)
            &&& have_their_own_identities(all)
        },
    decreases params.len() - i,
{
    if i < params.len() {
        let p = params[i];
        let ty = crate::typing::resolved(ctx, p.ty);
        if let Ok((id, after)) = with_local(frame, p.name, ty, true, p.span) {
            let more = before.push(TypedParameterView { id, name: p.name, ty, span: p.span });
            lemma_parameters_are_numbered(ctx, after, params, i + 1, more);
            if let Ok((all, _)) = lowered_parameters(ctx, frame, params, i, before) {
                assert(all[i] == more[i]);
                assert forall|k: int| 0 <= k < i implies #[trigger] all[k] == before[k] by {
                    assert(all[k] == more[k]);
                }
            }
        }
    }
}

} // verus!
