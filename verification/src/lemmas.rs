//! Facts about single steps of the semantics that the engine and the laws
//! both rest on.
use vstd::prelude::*;
use crate::models::{Direction, Edit};
use crate::semantics::{
    blanks, gathered, heir_of, point_of, resolves, slot_of, splice_in, PatchError, PatchState,
};

verus! {

/// In a well-formed state a slot that holds `id` is the slot of `id`.
pub proof fn lemma_slot(state: PatchState, id: nat, i: int)
    requires
        state.wf(),
        0 <= i < state.origins.len(),
        state.origins[i].contains(id),
    ensures
        resolves(state.origins, id),
        slot_of(state.origins, id) == i,
        id < state.origin_len,
{
    let j = slot_of(state.origins, id);
    assert(0 <= j < state.origins.len() && state.origins[j].contains(id));
}

/// In a well-formed state every source offset has its slot.
pub proof fn lemma_slot_exists(state: PatchState, id: nat)
    requires
        state.wf(),
        id < state.origin_len,
    ensures
        0 <= slot_of(state.origins, id) < state.origins.len(),
        state.origins[slot_of(state.origins, id)].contains(id),
{
    assert(resolves(state.origins, id));
}

/// In a well-formed state the offsets that resolve are those of the source.
pub proof fn lemma_resolves_iff(state: PatchState, id: nat)
    requires
        state.wf(),
    ensures
        resolves(state.origins, id) <==> id < state.origin_len,
{
    if resolves(state.origins, id) {
        let j = slot_of(state.origins, id);
        assert(state.origins[j].contains(id));
    }
}

/// The starting state is well-formed, and each offset sits at its own
/// position.
pub proof fn lemma_start(source: Seq<u8>)
    ensures
        PatchState::start(source).wf(),
        forall|id: nat|
            id < source.len() ==> #[trigger] slot_of(PatchState::start(source).origins, id) == id,
{
    let state = PatchState::start(source);
    assert forall|id: nat| id < state.origin_len implies #[trigger] resolves(
        state.origins,
        id,
    ) by {
        assert(state.origins[id as int].contains(id));
    }
    assert(state.wf());
    assert forall|id: nat| id < source.len() implies #[trigger] slot_of(state.origins, id)
        == id by {
        lemma_slot(state, id, id as int);
    }
}

/// Where a position of the buffer goes when `count` bytes are put in before
/// position `at`.
pub open spec fn shifted(i: int, at: int, count: int) -> int {
    if i < at {
        i
    } else {
        i + count
    }
}

/// An insertion keeps the state well-formed and moves the slots behind the
/// insertion point along with their bytes.
pub proof fn lemma_insert(state: PatchState, at: int, payload: Seq<u8>)
    requires
        state.wf(),
        0 <= at <= state.bytes.len(),
    ensures
        state.with_inserted(at, payload).wf(),
        state.with_inserted(at, payload).bytes.len() == state.bytes.len() + payload.len(),
        forall|id: nat|
            id < state.origin_len ==> #[trigger] slot_of(
                state.with_inserted(at, payload).origins,
                id,
            ) == shifted(slot_of(state.origins, id), at, payload.len() as int),
{
    let next = state.with_inserted(at, payload);
    let k = payload.len() as int;
    assert(next.origins.len() == state.origins.len() + k);
    assert forall|i: int| 0 <= i < state.origins.len() implies #[trigger] next.origins[shifted(
        i,
        at,
        k,
    )] == state.origins[i] by {}
    assert forall|i: int, id: nat|
        0 <= i < next.origins.len() && #[trigger] next.origins[i].contains(id) implies (i < at || i
        >= at + k) && state.origins[if i < at {
        i
    } else {
        i - k
    }].contains(id) by {
        if at <= i < at + k {
            assert(next.origins[i] == blanks(payload.len())[i - at]);
        }
    }
    assert forall|id: nat| id < next.origin_len implies #[trigger] resolves(next.origins, id) by {
        lemma_slot_exists(state, id);
        let i = slot_of(state.origins, id);
        assert(next.origins[shifted(i, at, k)].contains(id));
    }
    assert(next.wf());
    assert forall|id: nat| id < state.origin_len implies #[trigger] slot_of(next.origins, id)
        == shifted(slot_of(state.origins, id), at, k) by {
        lemma_slot_exists(state, id);
        let i = slot_of(state.origins, id);
        assert(next.origins[shifted(i, at, k)].contains(id));
        lemma_slot(next, id, shifted(i, at, k));
    }
}

/// Where a position of the buffer goes when the positions
/// `start .. start + count` are removed and the slot at `heir` takes over what
/// their slots answered to.
pub open spec fn collapsed(i: int, heir: int, start: int, count: int) -> int {
    if i < start {
        i
    } else if i < start + count {
        if heir < start {
            heir
        } else {
            heir - count
        }
    } else {
        i - count
    }
}

/// A removal keeps the state well-formed; the slots behind the range move up,
/// and the offsets of the removed slots are answered to by the heir of the
/// range.
pub proof fn lemma_remove(state: PatchState, start: int, count: int)
    requires
        state.wf(),
        0 <= start,
        0 <= count,
        start + count <= state.bytes.len(),
        start + count < state.bytes.len() || 1 <= start,
    ensures
        state.with_removed(start, count).wf(),
        state.with_removed(start, count).bytes.len() == state.bytes.len() - count,
        forall|id: nat|
            id < state.origin_len ==> #[trigger] slot_of(state.with_removed(start, count).origins, id)
                == collapsed(
                slot_of(state.origins, id),
                heir_of(state.bytes.len() as int, start, count),
                start,
                count,
            ),
{
    let heir = heir_of(state.bytes.len() as int, start, count);
    let next = state.with_removed(start, count);
    let merged = state.origins[heir] + gathered(state.origins, start, count);
    let marked = state.origins.update(heir, merged);
    assert(next.origins.len() == state.origins.len() - count);
    // each slot of the new index, read back in the old one
    assert forall|x: int| 0 <= x < next.origins.len() implies #[trigger] next.origins[x]
        == marked[if x < start {
        x
    } else {
        x + count
    }] by {}
    assert forall|id: nat| id < state.origin_len implies #[trigger] next.origins[collapsed(
        slot_of(state.origins, id),
        heir,
        start,
        count,
    )].contains(id) by {
        lemma_slot_exists(state, id);
        let i = slot_of(state.origins, id);
        if start <= i < start + count {
            assert(gathered(state.origins, start, count).contains(id));
            assert(merged.contains(id));
        }
    }
    assert forall|x: int, id: nat|
        0 <= x < next.origins.len() && #[trigger] next.origins[x].contains(id) implies id
        < state.origin_len && x == collapsed(slot_of(state.origins, id), heir, start, count) by {
        let old_x = if x < start {
            x
        } else {
            x + count
        };
        if old_x == heir && !state.origins[heir].contains(id) {
            assert(gathered(state.origins, start, count).contains(id));
            let k = choose|k: int|
                start <= k < start + count && 0 <= k < state.origins.len()
                    && #[trigger] state.origins[k].contains(id);
            lemma_slot(state, id, k);
        } else {
            lemma_slot(state, id, old_x);
        }
    }
    assert forall|id: nat| id < next.origin_len implies #[trigger] resolves(next.origins, id) by {
        lemma_slot_exists(state, id);
        let c = collapsed(slot_of(state.origins, id), heir, start, count);
        assert(next.origins[c].contains(id));
    }
    assert(next.wf());
    assert forall|id: nat| id < state.origin_len implies #[trigger] slot_of(next.origins, id)
        == collapsed(slot_of(state.origins, id), heir, start, count) by {
        lemma_slot_exists(state, id);
        let c = collapsed(slot_of(state.origins, id), heir, start, count);
        assert(next.origins[c].contains(id));
        lemma_slot(next, id, c);
    }
}

/// A step leads from a well-formed state to a well-formed state over the same
/// source.
pub proof fn lemma_step_wf(state: PatchState, edit: Edit)
    requires
        state.wf(),
        state.step(edit) is Ok,
    ensures
        state.step(edit)->Ok_0.wf(),
        state.step(edit)->Ok_0.origin_len == state.origin_len,
{
    lemma_resolves_iff(state, edit.spot());
    lemma_slot_exists(state, edit.spot());
    let at = slot_of(state.origins, edit.spot());
    match edit {
        Edit::Insert { way, payload, .. } => {
            let point = if way == Direction::Pre {
                at
            } else {
                at + 1
            };
            lemma_insert(state, point, payload);
        },
        Edit::Remove { way, count, .. } => {
            if way == Direction::Pre {
                lemma_remove(state, at - count, count as int);
            } else {
                lemma_remove(state, at + 1, count as int);
            }
        },
    }
}

/// A run leads from a well-formed state to a well-formed state over the same
/// source.
pub proof fn lemma_run_wf(state: PatchState, edits: Seq<Edit>)
    requires
        state.wf(),
        state.run(edits) is Ok,
    ensures
        state.run(edits)->Ok_0.wf(),
        state.run(edits)->Ok_0.origin_len == state.origin_len,
    decreases edits.len(),
{
    if edits.len() > 0 {
        lemma_step_wf(state, edits[0]);
        lemma_run_wf(state.step(edits[0])->Ok_0, edits.drop_first());
    }
}

/// A run fails for a spot or for a range, and in no other way.
pub proof fn lemma_run_errors(state: PatchState, edits: Seq<Edit>)
    ensures
        state.run(edits) != Err::<PatchState, PatchError>(PatchError::UnresolvedSource),
    decreases edits.len(),
{
    if edits.len() > 0 && state.step(edits[0]) is Ok {
        lemma_run_errors(state.step(edits[0])->Ok_0, edits.drop_first());
    }
}

/// Putting `x` in at `p` and then `y` behind it at `q` gives what putting `y`
/// in at `q` and then `x` at `p` gives.
pub proof fn lemma_splice_twice<T>(s: Seq<T>, p: int, x: Seq<T>, q: int, y: Seq<T>)
    requires
        0 <= p <= q <= s.len(),
    ensures
        splice_in(splice_in(s, p, x), q + x.len(), y) == splice_in(splice_in(s, q, y), p, x),
{
    assert(splice_in(splice_in(s, p, x), q + x.len(), y) =~= splice_in(splice_in(s, q, y), p, x));
}

/// Blank slots put together are blank slots.
pub proof fn lemma_blanks_add(a: nat, b: nat)
    ensures
        blanks(a) + blanks(b) == blanks(a + b),
{
    assert(blanks(a) + blanks(b) =~= blanks(a + b));
}

/// What an insertion does, spelled out.
pub proof fn lemma_insert_step(state: PatchState, way: Direction, spot: nat, payload: Seq<u8>)
    requires
        state.wf(),
        spot < state.origin_len,
    ensures
        state.step(Edit::Insert { way, spot, payload }) == Ok::<PatchState, PatchError>(
            state.with_inserted(point_of(slot_of(state.origins, spot), way), payload),
        ),
        0 <= point_of(slot_of(state.origins, spot), way) <= state.bytes.len(),
        state.with_inserted(point_of(slot_of(state.origins, spot), way), payload).wf(),
{
    lemma_resolves_iff(state, spot);
    lemma_slot_exists(state, spot);
    lemma_insert(state, point_of(slot_of(state.origins, spot), way), payload);
}

/// A run of one edit is one step.
pub proof fn lemma_run_one(state: PatchState, edit: Edit)
    ensures
        state.run(seq![edit]) == state.step(edit),
{
    let edits = seq![edit];
    assert(edits[0] == edit);
    assert(edits.drop_first() =~= Seq::<Edit>::empty());
    if state.step(edit) is Ok {
        let next = state.step(edit)->Ok_0;
        assert(next.run(Seq::<Edit>::empty()) == Ok::<PatchState, PatchError>(next));
    }
}

/// A run of two edits is two steps.
pub proof fn lemma_run_two(state: PatchState, a: Edit, b: Edit)
    ensures
        state.run(seq![a, b]) == match state.step(a) {
            Ok(next) => next.step(b),
            Err(e) => Err(e),
        },
{
    let edits = seq![a, b];
    assert(edits[0] == a);
    assert(edits.drop_first() =~= seq![b]);
    assert(seq![b].drop_first() =~= Seq::<Edit>::empty());
    if state.step(a) is Ok {
        let next = state.step(a)->Ok_0;
        assert(next.run(seq![b]) == match next.step(b) {
            Ok(last) => last.run(Seq::<Edit>::empty()),
            Err(e) => Err(e),
        });
    }
}

/// A run with one more edit at its end is the run, then that edit.
pub proof fn lemma_run_push(state: PatchState, edits: Seq<Edit>, last: Edit)
    ensures
        state.run(edits.push(last)) == match state.run(edits) {
            Ok(end) => end.step(last),
            Err(e) => Err(e),
        },
    decreases edits.len(),
{
    let all = edits.push(last);
    if edits.len() == 0 {
        assert(all.drop_first() =~= Seq::<Edit>::empty());
        assert(all[0] == last);
        if state.step(last) is Ok {
            assert(state.step(last)->Ok_0.run(all.drop_first()) == state.step(last));
        }
    } else {
        assert(all[0] == edits[0]);
        assert(all.drop_first() =~= edits.drop_first().push(last));
        if state.step(edits[0]) is Ok {
            lemma_run_push(state.step(edits[0])->Ok_0, edits.drop_first(), last);
        }
    }
}

/// A run of two lists on end is the run of the first, then the run of the
/// second.
pub proof fn lemma_run_add(state: PatchState, a: Seq<Edit>, b: Seq<Edit>)
    ensures
        state.run(a + b) == match state.run(a) {
            Ok(mid) => mid.run(b),
            Err(e) => Err(e),
        },
    decreases a.len(),
{
    if a.len() == 0 {
        assert(a + b =~= b);
    } else {
        assert((a + b)[0] == a[0]);
        assert((a + b).drop_first() =~= a.drop_first() + b);
        if state.step(a[0]) is Ok {
            lemma_run_add(state.step(a[0])->Ok_0, a.drop_first(), b);
        }
    }
}

/// Two insertions on different sides, or at spots that resolve to different
/// positions, can be made in either order.
pub proof fn lemma_inserts_commute(state: PatchState, a: Edit, b: Edit)
    requires
        state.wf(),
        a is Insert,
        b is Insert,
        a.spot() < state.origin_len,
        b.spot() < state.origin_len,
        a.way() != b.way() || slot_of(state.origins, a.spot()) != slot_of(state.origins, b.spot()),
    ensures
        state.step(a) is Ok,
        state.step(b) is Ok,
        state.step(a)->Ok_0.step(b) is Ok,
        state.step(a)->Ok_0.step(b) == state.step(b)->Ok_0.step(a),
{
    let ia = slot_of(state.origins, a.spot());
    let ib = slot_of(state.origins, b.spot());
    let pa = point_of(ia, a.way());
    let pb = point_of(ib, b.way());
    let xa = a->payload;
    let xb = b->payload;
    lemma_insert_step(state, a.way(), a.spot(), xa);
    lemma_insert_step(state, b.way(), b.spot(), xb);
    let sa = state.with_inserted(pa, xa);
    let sb = state.with_inserted(pb, xb);
    lemma_insert(state, pa, xa);
    lemma_insert(state, pb, xb);
    lemma_insert_step(sa, b.way(), b.spot(), xb);
    lemma_insert_step(sb, a.way(), a.spot(), xa);
    // where the second insertion is made, in either order
    let pb2 = point_of(shifted(ib, pa, xa.len() as int), b.way());
    let pa2 = point_of(shifted(ia, pb, xb.len() as int), a.way());
    assert(slot_of(sa.origins, b.spot()) == shifted(ib, pa, xa.len() as int));
    assert(slot_of(sb.origins, a.spot()) == shifted(ia, pb, xb.len() as int));
    let ab = sa.with_inserted(pb2, xb);
    let ba = sb.with_inserted(pa2, xa);
    if pa < pb || (pa == pb && a.way() == Direction::Post) {
        assert(pb2 == pb + xa.len());
        assert(pa2 == pa);
        lemma_splice_twice(state.bytes, pa, xa, pb, xb);
        lemma_splice_twice(state.origins, pa, blanks(xa.len()), pb, blanks(xb.len()));
    } else {
        assert(pa2 == pa + xb.len());
        assert(pb2 == pb);
        lemma_splice_twice(state.bytes, pb, xb, pa, xa);
        lemma_splice_twice(state.origins, pb, blanks(xb.len()), pa, blanks(xa.len()));
    }
    assert(ab == ba);
}

} // verus!
