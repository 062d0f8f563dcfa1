//! What a running program reads and writes.
use crate::execution::{evaluated, index_of, loaded, stored, Heap, Locals, StopView, World};
use crate::interpreter::ValueView;
use crate::typed::{TypedExprView, TypedPlaceView};
use vstd::prelude::*;

verus! {

/// The variable that holds a place.
pub ghost enum Variable {
    Local(u32),
    Global(u32),
    Nowhere,
}

pub open spec fn variable_of(place: TypedPlaceView) -> Variable
    decreases place,
{
    match place {
        TypedPlaceView::Local { id, .. } => Variable::Local(id.0),
        TypedPlaceView::Global { id, .. } => Variable::Global(id.0),
        TypedPlaceView::Field { base, .. } => variable_of(*base),
        TypedPlaceView::Index { base, .. } => variable_of(*base),
        _ => Variable::Nowhere,
    }
}

/// Whether an index is a number or a variable other than `written`.
pub open spec fn is_steady_index(e: TypedExprView, written: Variable) -> bool {
    match e {
        TypedExprView::Integer { .. } => true,
        TypedExprView::Load { id, .. } => written != Variable::Local(id.0),
        TypedExprView::GlobalLoad { id, .. } => written != Variable::Global(id.0),
        _ => false,
    }
}

/// Whether a write to the variable does not move the place.
pub open spec fn is_steady(place: TypedPlaceView, written: Variable) -> bool
    decreases place,
{
    match place {
        TypedPlaceView::Field { base, .. } => is_steady(*base, written),
        TypedPlaceView::Index { base, index, .. } => is_steady(*base, written) && is_steady_index(
            *index,
            written,
        ),
        _ => true,
    }
}

/// Whether two states hold the same, but for one variable.
pub open spec fn differ_in(
    variable: Variable,
    heap: Heap,
    env: Locals,
    heap_after: Heap,
    env_after: Locals,
) -> bool {
    &&& heap.steps == heap_after.steps
    &&& forall|id: u32|
        variable != Variable::Local(id) ==> (#[trigger] env.dom().contains(id)
            <==> env_after.dom().contains(id)) && env[id] == env_after[id]
    &&& forall|id: u32|
        variable != Variable::Global(id) ==> (#[trigger] heap.globals.dom().contains(id)
            <==> heap_after.globals.dom().contains(id)) && heap.globals[id]
            == heap_after.globals[id]
}

proof fn lemma_loading_is_quiet(
    w: World,
    heap: Heap,
    env: Locals,
    place: TypedPlaceView,
    written: Variable,
    depth: nat,
)
    requires
        is_steady(place, written),
    ensures
        loaded(w, heap, env, place, depth) matches Ok((_, after)) ==> after == heap,
    decreases place,
{
    match place {
        TypedPlaceView::Field { base, .. } => {
            lemma_loading_is_quiet(w, heap, env, *base, written, depth);
        },
        TypedPlaceView::Index { base, index, .. } => {
            assert(evaluated(w, heap, env, *index, depth) matches Ok((_, after)) ==> after == heap);
            lemma_loading_is_quiet(w, heap, env, *base, written, depth);
        },
        _ => {},
    }
}

/// A write changes the variable that holds the place and nothing else.
pub proof fn lemma_writes_stay_in_their_variable(
    w: World,
    heap: Heap,
    env: Locals,
    place: TypedPlaceView,
    value: ValueView,
    depth: nat,
)
    requires
        is_steady(place, variable_of(place)),
    ensures
        stored(w, heap, env, place, value, depth) matches Ok((heap_after, env_after)) ==> differ_in(
            variable_of(place),
            heap,
            env,
            heap_after,
            env_after,
        ),
    decreases place,
{
    match place {
        TypedPlaceView::Field { base, index, .. } => {
            lemma_loading_is_quiet(w, heap, env, *base, variable_of(place), depth);
            if let Ok((ValueView::Struct(fields), _)) = loaded(w, heap, env, *base, depth) {
                lemma_writes_stay_in_their_variable(
                    w,
                    heap,
                    env,
                    *base,
                    ValueView::Struct(fields.update(index as int, value)),
                    depth,
                );
            }
        },
        TypedPlaceView::Index { base, index, .. } => {
            lemma_loading_is_quiet(w, heap, env, *base, variable_of(place), depth);
            if let Ok((ValueView::Array(values), _)) = loaded(w, heap, env, *base, depth) {
                if let Ok((number, _)) = evaluated(w, heap, env, *index, depth) {
                    if let Ok(i) = index_of(number) {
                        lemma_writes_stay_in_their_variable(
                            w,
                            heap,
                            env,
                            *base,
                            ValueView::Array(values.update(i as int, value)),
                            depth,
                        );
                    }
                }
            }
        },
        _ => {},
    }
}

/// A read gives back what was last written to the place, be it a variable, a
/// field or an element.
pub proof fn lemma_reads_give_back_what_was_written(
    w: World,
    heap: Heap,
    env: Locals,
    place: TypedPlaceView,
    value: ValueView,
    depth: nat,
)
    requires
        is_steady(place, variable_of(place)),
    ensures
        stored(w, heap, env, place, value, depth) matches Ok((heap_after, env_after)) ==> loaded(
            w,
            heap_after,
            env_after,
            place,
            depth,
        ) == Ok::<(ValueView, Heap), StopView>((value, heap_after)),
    decreases place,
{
    lemma_writes_stay_in_their_variable(w, heap, env, place, value, depth);
    match place {
        TypedPlaceView::Field { base, index, .. } => {
            lemma_loading_is_quiet(w, heap, env, *base, variable_of(place), depth);
            if let Ok((ValueView::Struct(fields), _)) = loaded(w, heap, env, *base, depth) {
                lemma_reads_give_back_what_was_written(
                    w,
                    heap,
                    env,
                    *base,
                    ValueView::Struct(fields.update(index as int, value)),
                    depth,
                );
            }
        },
        TypedPlaceView::Index { base, index, .. } => {
            lemma_loading_is_quiet(w, heap, env, *base, variable_of(place), depth);
            if let Ok((ValueView::Array(values), _)) = loaded(w, heap, env, *base, depth) {
                if let Ok((number, _)) = evaluated(w, heap, env, *index, depth) {
                    if let Ok(i) = index_of(number) {
                        lemma_reads_give_back_what_was_written(
                            w,
                            heap,
                            env,
                            *base,
                            ValueView::Array(values.update(i as int, value)),
                            depth,
                        );
                        if let Ok((heap_after, env_after)) = stored(
                            w,
                            heap,
                            env,
                            place,
                            value,
                            depth,
                        ) {
                            assert(evaluated(w, heap_after, env_after, *index, depth)
                                == Ok::<(ValueView, Heap), StopView>((number, heap_after)));
                        }
                    }
                }
            }
        },
        _ => {},
    }
}

/// A write leaves what other variables hold as it was.
pub proof fn lemma_writes_leave_other_places(
    w: World,
    heap: Heap,
    env: Locals,
    place: TypedPlaceView,
    value: ValueView,
    other: TypedPlaceView,
    depth: nat,
)
    requires
        is_steady(place, variable_of(place)),
        is_steady(other, variable_of(place)),
        variable_of(other) != variable_of(place),
    ensures
        stored(w, heap, env, place, value, depth) matches Ok((heap_after, env_after)) ==> (
        match loaded(w, heap, env, other, depth) {
            Ok((held, _)) => loaded(w, heap_after, env_after, other, depth)
                == Ok::<(ValueView, Heap), StopView>((held, heap_after)),
            Err(message) => loaded(w, heap_after, env_after, other, depth)
                == Err::<(ValueView, Heap), StopView>(message),
        }),
{
    lemma_writes_stay_in_their_variable(w, heap, env, place, value, depth);
    if let Ok((heap_after, env_after)) = stored(w, heap, env, place, value, depth) {
        lemma_same_reads(w, heap, env, heap_after, env_after, variable_of(place), other, depth);
    }
}

proof fn lemma_same_reads(
    w: World,
    heap: Heap,
    env: Locals,
    heap_after: Heap,
    env_after: Locals,
    written: Variable,
    place: TypedPlaceView,
    depth: nat,
)
    requires
        differ_in(written, heap, env, heap_after, env_after),
        is_steady(place, written),
        variable_of(place) != written,
    ensures
        match loaded(w, heap, env, place, depth) {
            Ok((held, _)) => loaded(w, heap_after, env_after, place, depth)
                == Ok::<(ValueView, Heap), StopView>((held, heap_after)),
            Err(message) => loaded(w, heap_after, env_after, place, depth)
                == Err::<(ValueView, Heap), StopView>(message),
        },
    decreases place,
{
    match place {
        TypedPlaceView::Field { base, .. } => {
            lemma_same_reads(w, heap, env, heap_after, env_after, written, *base, depth);
        },
        TypedPlaceView::Index { base, index, .. } => {
            match evaluated(w, heap, env, *index, depth) {
                Ok((number, after)) => {
                    assert(after == heap);
                    assert(evaluated(w, heap_after, env_after, *index, depth)
                        == Ok::<(ValueView, Heap), StopView>((number, heap_after)));
                },
                Err(message) => {
                    assert(evaluated(w, heap_after, env_after, *index, depth)
                        == Err::<(ValueView, Heap), StopView>(message));
                },
            }
            lemma_same_reads(w, heap, env, heap_after, env_after, written, *base, depth);
        },
        _ => {},
    }
}

/// Indexing is checked: an element is read only where the index is below the
/// number of elements, and it is the element at the index.
pub proof fn lemma_reads_stay_in_bounds(
    w: World,
    heap: Heap,
    env: Locals,
    place: TypedPlaceView,
    depth: nat,
)
    requires
        place is Index,
    ensures
        loaded(w, heap, env, place, depth) matches Ok((value, last)) ==> exists|
            number: ValueView,
            after: Heap,
            values: Seq<ValueView>,
        |
            {
                &&& evaluated(w, heap, env, *place->Index_index, depth)
                    == Ok::<(ValueView, Heap), StopView>((number, after))
                &&& #[trigger] loaded(w, after, env, *place->Index_base, depth)
                    == Ok::<(ValueView, Heap), StopView>((ValueView::Array(values), last))
                &&& #[trigger] index_of(number) is Ok
                &&& index_of(number)->Ok_0 < values.len()
                &&& value == #[trigger] values[index_of(number)->Ok_0 as int]
            },
{
    if let Ok((value, last)) = loaded(w, heap, env, place, depth) {
        let index = *place->Index_index;
        let (number, after) = evaluated(w, heap, env, index, depth)->Ok_0;
        let whole = loaded(w, after, env, *place->Index_base, depth)->Ok_0.0;
        let values = whole->Array_0;
        assert(value == values[index_of(number)->Ok_0 as int]);
    }
}

} // verus!
