//! That insertions which share side and spot with no other may be made in any
//! order: the steps of the proof.
use vstd::prelude::*;
use crate::lemmas::{
    lemma_insert_step, lemma_inserts_commute, lemma_run_push, lemma_slot_exists,
};
use crate::laws::separate_inserts;
use crate::models::Edit;
use crate::semantics::{blanks, point_of, slot_of, PatchState};

verus! {

/// Whether no position answers to more than one source offset, as is the
/// case as long as nothing was removed.
pub open spec fn unmerged(state: PatchState) -> bool {
    forall|i: int, a: nat, b: nat|
        0 <= i < state.origins.len() && #[trigger] state.origins[i].contains(a)
            && #[trigger] state.origins[i].contains(b) ==> a == b
}

/// An insertion merges nothing.
pub proof fn lemma_insert_keeps_unmerged(state: PatchState, at: int, payload: Seq<u8>)
    requires
        state.wf(),
        unmerged(state),
        0 <= at <= state.bytes.len(),
    ensures
        unmerged(state.with_inserted(at, payload)),
{
    let next = state.with_inserted(at, payload);
    let k = payload.len() as int;
    assert forall|i: int, a: nat, b: nat|
        0 <= i < next.origins.len() && #[trigger] next.origins[i].contains(a)
            && #[trigger] next.origins[i].contains(b) implies a == b by {
        if i < at {
            assert(next.origins[i] == state.origins[i]);
        } else if i < at + k {
            assert(next.origins[i] == blanks(payload.len())[i - at]);
        } else {
            assert(next.origins[i] == state.origins[i - k]);
        }
    }
}

/// Where nothing is merged, different offsets have different positions.
pub proof fn lemma_unmerged_slots_differ(state: PatchState, a: nat, b: nat)
    requires
        state.wf(),
        unmerged(state),
        a < state.origin_len,
        b < state.origin_len,
        a != b,
    ensures
        slot_of(state.origins, a) != slot_of(state.origins, b),
{
    lemma_slot_exists(state, a);
    lemma_slot_exists(state, b);
}

/// Insertions at offsets of the source cannot fail, and merge nothing.
pub proof fn lemma_inserts_run(state: PatchState, edits: Seq<Edit>)
    requires
        state.wf(),
        unmerged(state),
        forall|i: int|
            0 <= i < edits.len() ==> (#[trigger] edits[i]) is Insert && edits[i].spot()
                < state.origin_len,
    ensures
        state.run(edits) is Ok,
        state.run(edits)->Ok_0.wf(),
        unmerged(state.run(edits)->Ok_0),
        state.run(edits)->Ok_0.origin_len == state.origin_len,
    decreases edits.len(),
{
    if edits.len() > 0 {
        let e = edits[0];
        lemma_insert_step(state, e.way(), e.spot(), e->payload);
        let point = point_of(slot_of(state.origins, e.spot()), e.way());
        lemma_insert_keeps_unmerged(state, point, e->payload);
        let next = state.with_inserted(point, e->payload);
        assert forall|i: int| 0 <= i < edits.drop_first().len() implies (
        #[trigger] edits.drop_first()[i]) is Insert && edits.drop_first()[i].spot()
            < next.origin_len by {
            assert(edits.drop_first()[i] == edits[i + 1]);
        }
        lemma_inserts_run(next, edits.drop_first());
    }
}

/// What is left of separate insertions without the first is separate.
pub proof fn lemma_rest_is_separate(edits: Seq<Edit>, len: nat)
    requires
        separate_inserts(edits, len),
        0 < edits.len(),
    ensures
        separate_inserts(edits.drop_first(), len),
{
    let rest = edits.drop_first();
    assert forall|i: int| 0 <= i < rest.len() implies (#[trigger] rest[i]) is Insert
        && rest[i].spot() < len by {
        assert(rest[i] == edits[i + 1]);
    }
    assert forall|i: int, j: int| 0 <= i < j < rest.len() implies (#[trigger] rest[i]).spot() != (
    #[trigger] rest[j]).spot() || rest[i].way() != rest[j].way() by {
        assert(rest[i] == edits[i + 1]);
        assert(rest[j] == edits[j + 1]);
    }
}

/// The list with its first two edits in each other's place.
pub open spec fn front_swapped(edits: Seq<Edit>) -> Seq<Edit> {
    seq![edits[1], edits[0]] + edits.skip(2)
}

/// Separate insertions stay separate when the first two change places.
pub proof fn lemma_front_swapped_is_separate(edits: Seq<Edit>, len: nat)
    requires
        separate_inserts(edits, len),
        2 <= edits.len(),
    ensures
        separate_inserts(front_swapped(edits), len),
{
    let swapped = front_swapped(edits);
    assert forall|i: int| 0 <= i < swapped.len() implies (#[trigger] swapped[i]) is Insert
        && swapped[i].spot() < len by {
        let o = if i == 0 {
            1
        } else if i == 1 {
            0
        } else {
            i
        };
        assert(swapped[i] == edits[o]);
    }
    assert forall|i: int, j: int| 0 <= i < j < swapped.len() implies (
    #[trigger] swapped[i]).spot() != (#[trigger] swapped[j]).spot() || swapped[i].way()
        != swapped[j].way() by {
        let oi = if i == 0 {
            1
        } else if i == 1 {
            0
        } else {
            i
        };
        let oj = if j == 1 {
            0
        } else {
            j
        };
        assert(swapped[i] == edits[oi]);
        assert(swapped[j] == edits[oj]);
        if oi < oj {
            assert(edits[oi].spot() != edits[oj].spot() || edits[oi].way() != edits[oj].way());
        } else {
            assert(edits[oj].spot() != edits[oi].spot() || edits[oj].way() != edits[oi].way());
        }
    }
}

/// A run of at least two edits is two steps and the run of the rest.
pub proof fn lemma_run_front(state: PatchState, edits: Seq<Edit>)
    requires
        2 <= edits.len(),
        state.step(edits[0]) is Ok,
        state.step(edits[0])->Ok_0.step(edits[1]) is Ok,
    ensures
        state.run(edits) == state.step(edits[0])->Ok_0.step(edits[1])->Ok_0.run(edits.skip(2)),
{
    let rest = edits.drop_first();
    assert(rest[0] == edits[1]);
    assert(rest.drop_first() =~= edits.skip(2));
    let next = state.step(edits[0])->Ok_0;
    assert(state.run(edits) == next.run(rest));
    assert(next.run(rest) == next.step(rest[0])->Ok_0.run(rest.drop_first()));
}

/// Separate insertions give the same state when the first two change places.
pub proof fn lemma_swap_front(state: PatchState, edits: Seq<Edit>)
    requires
        state.wf(),
        unmerged(state),
        separate_inserts(edits, state.origin_len),
        2 <= edits.len(),
    ensures
        state.run(edits) == state.run(front_swapped(edits)),
{
    let first = edits[0];
    let second = edits[1];
    let swapped = front_swapped(edits);
    assert(first.spot() != second.spot() || first.way() != second.way());
    if first.way() == second.way() {
        lemma_unmerged_slots_differ(state, first.spot(), second.spot());
    }
    lemma_inserts_commute(state, first, second);
    lemma_run_front(state, edits);
    assert(swapped[0] == second);
    assert(swapped[1] == first);
    assert(swapped.skip(2) =~= edits.skip(2));
    lemma_run_front(state, swapped);
}

/// The state after the first of a list of separate insertions is well-formed
/// and has nothing merged.
pub proof fn lemma_after_first(state: PatchState, edits: Seq<Edit>)
    requires
        state.wf(),
        unmerged(state),
        separate_inserts(edits, state.origin_len),
        0 < edits.len(),
    ensures
        state.step(edits[0]) is Ok,
        state.step(edits[0])->Ok_0.wf(),
        unmerged(state.step(edits[0])->Ok_0),
        state.step(edits[0])->Ok_0.origin_len == state.origin_len,
        state.run(edits) == state.step(edits[0])->Ok_0.run(edits.drop_first()),
{
    let first = edits[0];
    lemma_insert_step(state, first.way(), first.spot(), first->payload);
    let point = point_of(slot_of(state.origins, first.spot()), first.way());
    lemma_insert_keeps_unmerged(state, point, first->payload);
}

/// An insertion that shares side and spot with none of those behind it can be
/// made last instead.
pub proof fn lemma_move_to_end(state: PatchState, edits: Seq<Edit>, k: int)
    requires
        state.wf(),
        unmerged(state),
        separate_inserts(edits, state.origin_len),
        0 <= k < edits.len(),
    ensures
        state.run(edits) == state.run(edits.remove(k).push(edits[k])),
    decreases edits.len(), edits.len() - k,
{
    let moved = edits.remove(k).push(edits[k]);
    if k > 0 {
        // the first edit stays in front; move within the rest
        let rest = edits.drop_first();
        lemma_after_first(state, edits);
        lemma_rest_is_separate(edits, state.origin_len);
        let next = state.step(edits[0])->Ok_0;
        lemma_move_to_end(next, rest, k - 1);
        assert(moved[0] == edits[0]);
        assert(moved.drop_first() =~= rest.remove(k - 1).push(rest[k - 1]));
        assert(state.run(moved) == next.run(moved.drop_first()));
    } else if edits.len() == 1 {
        assert(moved =~= edits);
    } else {
        // let the first edit change places with the second, and move it on
        // from there
        let swapped = front_swapped(edits);
        lemma_swap_front(state, edits);
        lemma_front_swapped_is_separate(edits, state.origin_len);
        lemma_move_to_end_second(state, swapped);
        assert(swapped.remove(1).push(swapped[1]) =~= moved);
    }
}

/// The step of [`lemma_move_to_end`] for the second edit of a list: behind
/// its first edit the list is shorter by one.
pub proof fn lemma_move_to_end_second(state: PatchState, edits: Seq<Edit>)
    requires
        state.wf(),
        unmerged(state),
        separate_inserts(edits, state.origin_len),
        2 <= edits.len(),
    ensures
        state.run(edits) == state.run(edits.remove(1).push(edits[1])),
    decreases edits.len(), 0int,
{
    let moved = edits.remove(1).push(edits[1]);
    let rest = edits.drop_first();
    lemma_after_first(state, edits);
    lemma_rest_is_separate(edits, state.origin_len);
    let next = state.step(edits[0])->Ok_0;
    lemma_move_to_end(next, rest, 0);
    assert(moved[0] == edits[0]);
    assert(moved.drop_first() =~= rest.remove(0).push(rest[0]));
    assert(state.run(moved) == next.run(moved.drop_first()));
}

/// Insertions of which no two share side and spot give the same state in
/// whatever order they are made.
pub proof fn lemma_reordered(state: PatchState, a: Seq<Edit>, b: Seq<Edit>)
    requires
        state.wf(),
        unmerged(state),
        separate_inserts(a, state.origin_len),
        a.to_multiset() == b.to_multiset(),
    ensures
        state.run(a) == state.run(b),
    decreases a.len(),
{
    vstd::seq_lib::to_multiset_len(a);
    vstd::seq_lib::to_multiset_len(b);
    if a.len() == 0 {
        assert(a =~= b);
    } else {
        let last = b.last();
        let b_rest = b.drop_last();
        assert(b.contains(last)) by {
            assert(b[b.len() - 1] == last);
        }
        vstd::seq_lib::to_multiset_contains(b, last);
        vstd::seq_lib::to_multiset_contains(a, last);
        let k = choose|k: int| 0 <= k < a.len() && a[k] == last;
        let a_rest = a.remove(k);
        vstd::seq_lib::to_multiset_remove(a, k);
        vstd::seq_lib::to_multiset_remove(b, b.len() - 1);
        assert(b.remove(b.len() - 1) =~= b_rest);
        assert(a_rest.to_multiset() == b_rest.to_multiset());
        assert(separate_inserts(a_rest, state.origin_len)) by {
            assert forall|i: int| 0 <= i < a_rest.len() implies (#[trigger] a_rest[i]) is Insert
                && a_rest[i].spot() < state.origin_len by {
                assert(a_rest[i] == a[if i < k {
                    i
                } else {
                    i + 1
                }]);
            }
            assert forall|i: int, j: int| 0 <= i < j < a_rest.len() implies (
            #[trigger] a_rest[i]).spot() != (#[trigger] a_rest[j]).spot() || a_rest[i].way()
                != a_rest[j].way() by {
                let oi = if i < k {
                    i
                } else {
                    i + 1
                };
                let oj = if j < k {
                    j
                } else {
                    j + 1
                };
                assert(a_rest[i] == a[oi]);
                assert(a_rest[j] == a[oj]);
                assert(a[oi].spot() != a[oj].spot() || a[oi].way() != a[oj].way());
            }
        }
        lemma_move_to_end(state, a, k);
        lemma_reordered(state, a_rest, b_rest);
        lemma_run_push(state, a_rest, last);
        lemma_run_push(state, b_rest, last);
        assert(b_rest.push(last) =~= b);
    }
}

} // verus!
