//! What follows from the semantics: the properties that callers of the engine
//! may rely on, each stated over the definitions of [`crate::semantics`] and
//! proved from them.
use vstd::prelude::*;
use crate::lemmas::{
    lemma_insert, lemma_insert_step, lemma_inserts_commute, lemma_remove, lemma_resolves_iff,
    lemma_run_add, lemma_run_one, lemma_run_push, lemma_run_two, lemma_run_wf, lemma_slot_exists,
    lemma_start, lemma_step_wf, lemma_blanks_add,
};
use crate::models::{Direction, Edit};
use crate::reorder::{lemma_inserts_run, lemma_reordered, unmerged};
use crate::weave::lemma_weave;
use crate::semantics::{
    cut_out, gathered, heir_of, patched, point_of, resolves, slot_of, splice_in, PatchError,
    PatchState,
};

verus! {

/// An empty edit list leaves the source as it is, byte for byte.
pub proof fn law_no_edits_no_change(source: Seq<u8>)
    ensures
        patched(source, Seq::<Edit>::empty()) == Ok::<Seq<u8>, PatchError>(source),
{
}

/// Whatever edits have run, the index runs parallel to the buffer and every
/// offset of the source is answered to by exactly one position.
pub proof fn law_index_stays_in_step(source: Seq<u8>, edits: Seq<Edit>)
    requires
        PatchState::start(source).run(edits) is Ok,
    ensures
        ({
            let end = PatchState::start(source).run(edits)->Ok_0;
            &&& end.wf()
            &&& end.origins.len() == end.bytes.len()
            &&& end.origin_len == source.len()
            &&& forall|id: nat|
                id < source.len() ==> 0 <= #[trigger] slot_of(end.origins, id) < end.bytes.len()
                    && end.origins[slot_of(end.origins, id)].contains(id)
        }),
{
    lemma_start(source);
    lemma_run_wf(PatchState::start(source), edits);
    let end = PatchState::start(source).run(edits)->Ok_0;
    assert forall|id: nat| id < source.len() implies 0 <= #[trigger] slot_of(end.origins, id)
        < end.bytes.len() && end.origins[slot_of(end.origins, id)].contains(id) by {
        lemma_slot_exists(end, id);
    }
}

/// An edit is out of bounds exactly when its spot is no offset of the source,
/// whatever ran before it. An insertion fails in no other way.
pub proof fn law_out_of_bounds(state: PatchState, edit: Edit)
    requires
        state.wf(),
    ensures
        state.step(edit) == Err::<PatchState, PatchError>(PatchError::OutOfBounds) <==> edit.spot()
            >= state.origin_len,
        edit is Insert && edit.spot() < state.origin_len ==> state.step(edit) is Ok,
        state.step(edit) != Err::<PatchState, PatchError>(PatchError::UnresolvedSource),
{
    lemma_resolves_iff(state, edit.spot());
}

/// A removal fails for its range exactly when it asks for more bytes than the
/// buffer holds, as it stands, on the side of the spot that it works on.
pub proof fn law_invalid_remove_range(state: PatchState, way: Direction, spot: nat, count: nat)
    requires
        state.wf(),
        spot < state.origin_len,
    ensures
        state.step(Edit::Remove { way, spot, count }) == Err::<PatchState, PatchError>(
            PatchError::InvalidRemoveRange,
        ) <==> if way == Direction::Pre {
            count > slot_of(state.origins, spot)
        } else {
            count > state.bytes.len() - 1 - slot_of(state.origins, spot)
        },
{
    lemma_resolves_iff(state, spot);
}

/// A removal of no bytes changes nothing.
pub proof fn law_remove_nothing(state: PatchState, way: Direction, spot: nat)
    requires
        state.wf(),
        spot < state.origin_len,
    ensures
        state.step(Edit::Remove { way, spot, count: 0 }) == Ok::<PatchState, PatchError>(state),
{
    lemma_resolves_iff(state, spot);
    lemma_slot_exists(state, spot);
    let at = slot_of(state.origins, spot);
    let start = point_of(at, way);
    let heir = heir_of(state.bytes.len() as int, start, 0);
    let next = state.with_removed(start, 0);
    assert(gathered(state.origins, start, 0) =~= Set::<nat>::empty());
    assert(state.origins[heir] + gathered(state.origins, start, 0) =~= state.origins[heir]);
    assert(next.origins =~= state.origins);
    assert(next.bytes =~= state.bytes);
}

/// The first of the positions that a removal on side `way` of position `at`
/// takes.
pub open spec fn range_start(at: int, way: Direction, count: nat) -> int {
    if way == Direction::Pre {
        at - count
    } else {
        at + 1
    }
}

/// After a removal every offset of the source still resolves, those of the
/// removed bytes too, so that an insertion there cannot fail. The offsets of
/// the removed bytes resolve to the position where the removed range began,
/// which the byte behind the range has taken; where no byte was behind it, to
/// the last position.
pub proof fn law_removed_spots_resolve(
    state: PatchState,
    removal: Edit,
    spot: nat,
    way: Direction,
    payload: Seq<u8>,
)
    requires
        state.wf(),
        removal is Remove,
        state.step(removal) is Ok,
        spot < state.origin_len,
    ensures
        ({
            let next = state.step(removal)->Ok_0;
            let at = slot_of(state.origins, removal.spot());
            let start = range_start(at, removal.way(), removal->count);
            let old_slot = slot_of(state.origins, spot);
            let closed_at = if start < next.bytes.len() {
                start
            } else {
                start - 1
            };
            &&& resolves(next.origins, spot)
            &&& start <= old_slot < start + removal->count ==> slot_of(next.origins, spot)
                == closed_at
            &&& next.step(Edit::Insert { way, spot, payload }) is Ok
        }),
{
    lemma_resolves_iff(state, removal.spot());
    lemma_slot_exists(state, removal.spot());
    lemma_slot_exists(state, spot);
    lemma_step_wf(state, removal);
    let next = state.step(removal)->Ok_0;
    let at = slot_of(state.origins, removal.spot());
    let count = removal->count as int;
    lemma_remove(state, range_start(at, removal.way(), removal->count), count);
    lemma_resolves_iff(next, spot);
}

/// Two insertions on different sides, or at spots that resolve to different
/// positions, can be made in either order.
pub proof fn law_inserts_commute(state: PatchState, a: Edit, b: Edit)
    requires
        state.wf(),
        a is Insert,
        b is Insert,
        a.spot() < state.origin_len,
        b.spot() < state.origin_len,
        a.way() != b.way() || slot_of(state.origins, a.spot()) != slot_of(state.origins, b.spot()),
    ensures
        state.step(a) is Ok,
        state.step(b) is Ok,
        state.step(a)->Ok_0.step(b) is Ok,
        state.step(a)->Ok_0.step(b) == state.step(b)->Ok_0.step(a),
{
    lemma_inserts_commute(state, a, b);
}

/// A pre insertion and a post insertion can be made in either order, at the
/// same spot or at different ones.
pub proof fn law_pre_and_post_commute(
    state: PatchState,
    pre_spot: nat,
    pre_payload: Seq<u8>,
    post_spot: nat,
    post_payload: Seq<u8>,
)
    requires
        state.wf(),
        pre_spot < state.origin_len,
        post_spot < state.origin_len,
    ensures
        ({
            let pre = Edit::Insert { way: Direction::Pre, spot: pre_spot, payload: pre_payload };
            let post = Edit::Insert {
                way: Direction::Post,
                spot: post_spot,
                payload: post_payload,
            };
            &&& state.run(seq![pre, post]) is Ok
            &&& state.run(seq![pre, post]) == state.run(seq![post, pre])
        }),
{
    let pre = Edit::Insert { way: Direction::Pre, spot: pre_spot, payload: pre_payload };
    let post = Edit::Insert { way: Direction::Post, spot: post_spot, payload: post_payload };
    law_inserts_commute(state, pre, post);
    lemma_run_two(state, pre, post);
    lemma_run_two(state, post, pre);
}

/// Of two post insertions at one spot, the later one lands nearer to the
/// spot: together they insert the later payload followed by the earlier.
pub proof fn law_post_inserts_stack(state: PatchState, spot: nat, first: Seq<u8>, second: Seq<u8>)
    requires
        state.wf(),
        spot < state.origin_len,
    ensures
        state.run(
            seq![
                Edit::Insert { way: Direction::Post, spot, payload: first },
                Edit::Insert { way: Direction::Post, spot, payload: second },
            ],
        ) == state.step(Edit::Insert { way: Direction::Post, spot, payload: second + first }),
{
    let a = Edit::Insert { way: Direction::Post, spot, payload: first };
    let b = Edit::Insert { way: Direction::Post, spot, payload: second };
    let at = slot_of(state.origins, spot);
    lemma_run_two(state, a, b);
    lemma_insert_step(state, Direction::Post, spot, first);
    lemma_insert_step(state, Direction::Post, spot, second + first);
    lemma_insert(state, at + 1, first);
    let sa = state.with_inserted(at + 1, first);
    lemma_insert_step(sa, Direction::Post, spot, second);
    assert(slot_of(sa.origins, spot) == at);
    let both = sa.with_inserted(at + 1, second);
    let once = state.with_inserted(at + 1, second + first);
    assert(both.bytes =~= once.bytes);
    lemma_blanks_add(second.len(), first.len());
    assert(both.origins =~= once.origins);
}

/// Of two pre insertions at one spot, the later one lands nearer to the
/// spot: together they insert the earlier payload followed by the later.
pub proof fn law_pre_inserts_queue(state: PatchState, spot: nat, first: Seq<u8>, second: Seq<u8>)
    requires
        state.wf(),
        spot < state.origin_len,
    ensures
        state.run(
            seq![
                Edit::Insert { way: Direction::Pre, spot, payload: first },
                Edit::Insert { way: Direction::Pre, spot, payload: second },
            ],
        ) == state.step(Edit::Insert { way: Direction::Pre, spot, payload: first + second }),
{
    let a = Edit::Insert { way: Direction::Pre, spot, payload: first };
    let b = Edit::Insert { way: Direction::Pre, spot, payload: second };
    let at = slot_of(state.origins, spot);
    lemma_run_two(state, a, b);
    lemma_insert_step(state, Direction::Pre, spot, first);
    lemma_insert_step(state, Direction::Pre, spot, first + second);
    lemma_insert(state, at, first);
    let sa = state.with_inserted(at, first);
    lemma_insert_step(sa, Direction::Pre, spot, second);
    assert(slot_of(sa.origins, spot) == at + first.len());
    let both = sa.with_inserted(at + first.len(), second);
    let once = state.with_inserted(at, first + second);
    assert(both.bytes =~= once.bytes);
    lemma_blanks_add(first.len(), second.len());
    assert(both.origins =~= once.origins);
}

/// One insertion into the source puts the payload right before the byte at
/// the spot, or right after it: at spot 0 a pre insertion prepends, at the
/// last offset a post insertion appends.
pub proof fn law_single_insert(source: Seq<u8>, way: Direction, spot: nat, payload: Seq<u8>)
    requires
        spot < source.len(),
    ensures
        patched(source, seq![Edit::Insert { way, spot, payload }]) == Ok::<Seq<u8>, PatchError>(
            splice_in(source, point_of(spot as int, way), payload),
        ),
{
    let state = PatchState::start(source);
    lemma_start(source);
    lemma_run_one(state, Edit::Insert { way, spot, payload });
    lemma_insert_step(state, way, spot, payload);
    assert(slot_of(state.origins, spot) == spot);
}

/// One removal from the source takes the `count` bytes before the byte at the
/// spot, or the `count` bytes after it, and fails where there are fewer.
pub proof fn law_single_remove(source: Seq<u8>, way: Direction, spot: nat, count: nat)
    requires
        spot < source.len(),
    ensures
        patched(source, seq![Edit::Remove { way, spot, count }]) == if way == Direction::Pre {
            if count <= spot {
                Ok::<Seq<u8>, PatchError>(cut_out(source, spot - count, count as int))
            } else {
                Err::<Seq<u8>, PatchError>(PatchError::InvalidRemoveRange)
            }
        } else {
            if spot + 1 + count <= source.len() {
                Ok::<Seq<u8>, PatchError>(cut_out(source, spot as int + 1, count as int))
            } else {
                Err::<Seq<u8>, PatchError>(PatchError::InvalidRemoveRange)
            }
        },
{
    let state = PatchState::start(source);
    lemma_start(source);
    lemma_run_one(state, Edit::Remove { way, spot, count });
    lemma_resolves_iff(state, spot);
    assert(slot_of(state.origins, spot) == spot);
}

/// Edits whose spots are all offsets of the source are never out of bounds,
/// in whatever state the edits before them left the buffer.
pub proof fn law_valid_spots_resolve(source: Seq<u8>, edits: Seq<Edit>)
    requires
        forall|i: int| 0 <= i < edits.len() ==> (#[trigger] edits[i]).spot() < source.len(),
    ensures
        patched(source, edits) != Err::<Seq<u8>, PatchError>(PatchError::OutOfBounds),
        patched(source, edits) != Err::<Seq<u8>, PatchError>(PatchError::UnresolvedSource),
{
    lemma_start(source);
    lemma_valid_spots_resolve(PatchState::start(source), edits);
}

/// [`law_valid_spots_resolve`], from any well-formed state.
proof fn lemma_valid_spots_resolve(state: PatchState, edits: Seq<Edit>)
    requires
        state.wf(),
        forall|i: int| 0 <= i < edits.len() ==> (#[trigger] edits[i]).spot() < state.origin_len,
    ensures
        state.run(edits) != Err::<PatchState, PatchError>(PatchError::OutOfBounds),
        state.run(edits) != Err::<PatchState, PatchError>(PatchError::UnresolvedSource),
    decreases edits.len(),
{
    if edits.len() > 0 {
        law_out_of_bounds(state, edits[0]);
        if state.step(edits[0]) is Ok {
            lemma_step_wf(state, edits[0]);
            let rest = edits.drop_first();
            assert forall|i: int| 0 <= i < rest.len() implies (#[trigger] rest[i]).spot()
                < state.origin_len by {
                assert(rest[i] == edits[i + 1]);
            }
            lemma_valid_spots_resolve(state.step(edits[0])->Ok_0, rest);
        }
    }
}

/// An edit whose spot is no offset of the source makes the whole list fail,
/// wherever in the list it stands.
pub proof fn law_invalid_spot_fails(source: Seq<u8>, edits: Seq<Edit>, k: int)
    requires
        0 <= k < edits.len(),
        edits[k].spot() >= source.len(),
    ensures
        patched(source, edits) is Err,
{
    lemma_start(source);
    lemma_invalid_spot_fails(PatchState::start(source), edits, k);
}

/// [`law_invalid_spot_fails`], from any well-formed state.
proof fn lemma_invalid_spot_fails(state: PatchState, edits: Seq<Edit>, k: int)
    requires
        state.wf(),
        0 <= k < edits.len(),
        edits[k].spot() >= state.origin_len,
    ensures
        state.run(edits) is Err,
    decreases edits.len(),
{
    law_out_of_bounds(state, edits[0]);
    if k > 0 && state.step(edits[0]) is Ok {
        lemma_step_wf(state, edits[0]);
        assert(edits.drop_first()[k - 1] == edits[k]);
        lemma_invalid_spot_fails(state.step(edits[0])->Ok_0, edits.drop_first(), k - 1);
    }
}

/// The number of bytes that the insertions of a list put in.
pub open spec fn inserted_len(edits: Seq<Edit>) -> nat
    decreases edits.len(),
{
    if edits.len() == 0 {
        0
    } else {
        (match edits[0] {
            Edit::Insert { payload, .. } => payload.len(),
            Edit::Remove { .. } => 0,
        }) + inserted_len(edits.drop_first())
    }
}

/// Insertions at offsets of the source cannot fail, and the buffer grows by
/// what they put in.
pub proof fn law_inserts_cannot_fail(source: Seq<u8>, edits: Seq<Edit>)
    requires
        forall|i: int|
            0 <= i < edits.len() ==> (#[trigger] edits[i]) is Insert && edits[i].spot()
                < source.len(),
    ensures
        patched(source, edits) is Ok,
        patched(source, edits)->Ok_0.len() == source.len() + inserted_len(edits),
{
    lemma_start(source);
    lemma_inserts_grow(PatchState::start(source), edits);
}

/// [`law_inserts_cannot_fail`], from any well-formed state.
proof fn lemma_inserts_grow(state: PatchState, edits: Seq<Edit>)
    requires
        state.wf(),
        forall|i: int|
            0 <= i < edits.len() ==> (#[trigger] edits[i]) is Insert && edits[i].spot()
                < state.origin_len,
    ensures
        state.run(edits) is Ok,
        state.run(edits)->Ok_0.bytes.len() == state.bytes.len() + inserted_len(edits),
    decreases edits.len(),
{
    if edits.len() > 0 {
        let e = edits[0];
        lemma_insert_step(state, e.way(), e.spot(), e->payload);
        let point = point_of(slot_of(state.origins, e.spot()), e.way());
        lemma_insert(state, point, e->payload);
        let next = state.with_inserted(point, e->payload);
        let rest = edits.drop_first();
        assert forall|i: int| 0 <= i < rest.len() implies (#[trigger] rest[i]) is Insert
            && rest[i].spot() < next.origin_len by {
            assert(rest[i] == edits[i + 1]);
        }
        lemma_inserts_grow(next, rest);
    }
}

/// The payload of `edit` where it is an insertion on side `way` of `spot`;
/// nothing where it is not.
pub open spec fn payload_at(edit: Edit, way: Direction, spot: nat) -> Seq<u8> {
    if edit is Insert && edit.way() == way && edit.spot() == spot {
        edit->payload
    } else {
        Seq::empty()
    }
}

/// What the pre insertions of a list at `spot` put right before its byte:
/// their payloads, in the order of the list.
pub open spec fn pre_block(edits: Seq<Edit>, spot: nat) -> Seq<u8>
    decreases edits.len(),
{
    if edits.len() == 0 {
        Seq::empty()
    } else {
        pre_block(edits.drop_last(), spot) + payload_at(edits.last(), Direction::Pre, spot)
    }
}

/// What the post insertions of a list at `spot` put right after its byte:
/// their payloads, the last of the list first.
pub open spec fn post_block(edits: Seq<Edit>, spot: nat) -> Seq<u8>
    decreases edits.len(),
{
    if edits.len() == 0 {
        Seq::empty()
    } else {
        payload_at(edits.last(), Direction::Post, spot) + post_block(edits.drop_last(), spot)
    }
}

/// The first `upto` bytes of the source, each between what the insertions of
/// the list put before it and what they put after it.
pub open spec fn woven(source: Seq<u8>, edits: Seq<Edit>, upto: nat) -> Seq<u8>
    decreases upto,
{
    if upto == 0 {
        Seq::empty()
    } else {
        let spot = (upto - 1) as nat;
        woven(source, edits, spot) + pre_block(edits, spot) + seq![source[spot as int]]
            + post_block(edits, spot)
    }
}

/// A list of insertions at offsets of the source cannot fail, and gives the
/// bytes of the source in their order, each byte right behind the payloads of
/// the pre insertions at its offset, in the order of the list, and right
/// before the payloads of the post insertions at its offset, the last of the
/// list first.
pub proof fn law_inserts_weave(source: Seq<u8>, edits: Seq<Edit>)
    requires
        forall|i: int|
            0 <= i < edits.len() ==> (#[trigger] edits[i]) is Insert && edits[i].spot()
                < source.len(),
    ensures
        patched(source, edits) == Ok::<Seq<u8>, PatchError>(woven(source, edits, source.len())),
{
    lemma_weave(source, edits);
}

/// Whether `edits` are insertions at offsets below `len`, no two of them on
/// the same side of the same spot.
pub open spec fn separate_inserts(edits: Seq<Edit>, len: nat) -> bool {
    &&& forall|i: int|
        0 <= i < edits.len() ==> (#[trigger] edits[i]) is Insert && edits[i].spot() < len
    &&& forall|i: int, j: int|
        0 <= i < j < edits.len() ==> (#[trigger] edits[i]).spot() != (#[trigger] edits[j]).spot()
            || edits[i].way() != edits[j].way()
}

/// Insertions at offsets of the source, no two of them on the same side of
/// the same spot, cannot fail, and give the same bytes in whatever order they
/// are listed.
pub proof fn law_insert_order_is_irrelevant(source: Seq<u8>, a: Seq<Edit>, b: Seq<Edit>)
    requires
        separate_inserts(a, source.len()),
        a.to_multiset() == b.to_multiset(),
    ensures
        patched(source, a) is Ok,
        patched(source, a) == patched(source, b),
{
    let state = PatchState::start(source);
    lemma_start(source);
    assert(unmerged(state));
    lemma_inserts_run(state, a);
    lemma_reordered(state, a, b);
}

/// Whether `x` and `y` lead from every well-formed state over a source of
/// length `len` to the same outcome.
pub open spec fn same_effect(x: Seq<Edit>, y: Seq<Edit>, len: nat) -> bool {
    forall|state: PatchState|
        state.wf() && state.origin_len == len ==> #[trigger] state.run(x) == state.run(y)
}

/// Edits may be replaced, anywhere in a list, by edits of the same effect.
pub proof fn law_same_effect_in_place(
    source: Seq<u8>,
    before: Seq<Edit>,
    x: Seq<Edit>,
    y: Seq<Edit>,
    after: Seq<Edit>,
)
    requires
        same_effect(x, y, source.len()),
    ensures
        patched(source, before + x + after) == patched(source, before + y + after),
{
    let state = PatchState::start(source);
    lemma_start(source);
    lemma_run_add(state, before + x, after);
    lemma_run_add(state, before + y, after);
    lemma_run_add(state, before, x);
    lemma_run_add(state, before, y);
    if state.run(before) is Ok {
        lemma_run_wf(state, before);
        let mid = state.run(before)->Ok_0;
        assert(mid.run(x) == mid.run(y));
    }
}

/// Wherever in a list a pre insertion and a post insertion stand side by
/// side, they may change places.
pub proof fn law_pre_and_post_commute_in_place(
    source: Seq<u8>,
    before: Seq<Edit>,
    pre_spot: nat,
    pre_payload: Seq<u8>,
    post_spot: nat,
    post_payload: Seq<u8>,
    after: Seq<Edit>,
)
    requires
        pre_spot < source.len(),
        post_spot < source.len(),
    ensures
        ({
            let pre = Edit::Insert { way: Direction::Pre, spot: pre_spot, payload: pre_payload };
            let post = Edit::Insert {
                way: Direction::Post,
                spot: post_spot,
                payload: post_payload,
            };
            patched(source, before + seq![pre, post] + after) == patched(
                source,
                before + seq![post, pre] + after,
            )
        }),
{
    let pre = Edit::Insert { way: Direction::Pre, spot: pre_spot, payload: pre_payload };
    let post = Edit::Insert { way: Direction::Post, spot: post_spot, payload: post_payload };
    let x = seq![pre, post];
    let y = seq![post, pre];
    assert forall|state: PatchState|
        state.wf() && state.origin_len == source.len() implies #[trigger] state.run(x)
        == state.run(y) by {
        law_pre_and_post_commute(state, pre_spot, pre_payload, post_spot, post_payload);
    }
    law_same_effect_in_place(source, before, x, y, after);
}

/// Wherever in a list two post insertions at one spot stand side by side,
/// they may be made as one, which inserts the later payload followed by the
/// earlier.
pub proof fn law_post_inserts_stack_in_place(
    source: Seq<u8>,
    before: Seq<Edit>,
    spot: nat,
    first: Seq<u8>,
    second: Seq<u8>,
    after: Seq<Edit>,
)
    requires
        spot < source.len(),
    ensures
        patched(
            source,
            before + seq![
                Edit::Insert { way: Direction::Post, spot, payload: first },
                Edit::Insert { way: Direction::Post, spot, payload: second },
            ] + after,
        ) == patched(
            source,
            before + seq![Edit::Insert { way: Direction::Post, spot, payload: second + first }]
                + after,
        ),
{
    let two = seq![
        Edit::Insert { way: Direction::Post, spot, payload: first },
        Edit::Insert { way: Direction::Post, spot, payload: second },
    ];
    let one = Edit::Insert { way: Direction::Post, spot, payload: second + first };
    let merged = seq![one];
    assert forall|state: PatchState|
        state.wf() && state.origin_len == source.len() implies #[trigger] state.run(two)
        == state.run(merged) by {
        law_post_inserts_stack(state, spot, first, second);
        lemma_run_one(state, one);
    }
    law_same_effect_in_place(source, before, two, merged, after);
}

/// Wherever in a list two pre insertions at one spot stand side by side, they
/// may be made as one, which inserts the earlier payload followed by the
/// later.
pub proof fn law_pre_inserts_queue_in_place(
    source: Seq<u8>,
    before: Seq<Edit>,
    spot: nat,
    first: Seq<u8>,
    second: Seq<u8>,
    after: Seq<Edit>,
)
    requires
        spot < source.len(),
    ensures
        patched(
            source,
            before + seq![
                Edit::Insert { way: Direction::Pre, spot, payload: first },
                Edit::Insert { way: Direction::Pre, spot, payload: second },
            ] + after,
        ) == patched(
            source,
            before + seq![Edit::Insert { way: Direction::Pre, spot, payload: first + second }]
                + after,
        ),
{
    let two = seq![
        Edit::Insert { way: Direction::Pre, spot, payload: first },
        Edit::Insert { way: Direction::Pre, spot, payload: second },
    ];
    let one = Edit::Insert { way: Direction::Pre, spot, payload: first + second };
    let merged = seq![one];
    assert forall|state: PatchState|
        state.wf() && state.origin_len == source.len() implies #[trigger] state.run(two)
        == state.run(merged) by {
        law_pre_inserts_queue(state, spot, first, second);
        lemma_run_one(state, one);
    }
    law_same_effect_in_place(source, before, two, merged, after);
}

/// Wherever in a list a removal of no bytes stands, the list gives what it
/// gives without it.
pub proof fn law_remove_nothing_in_place(
    source: Seq<u8>,
    before: Seq<Edit>,
    way: Direction,
    spot: nat,
    after: Seq<Edit>,
)
    requires
        spot < source.len(),
    ensures
        patched(source, before + seq![Edit::Remove { way, spot, count: 0 }] + after) == patched(
            source,
            before + after,
        ),
{
    let removal = Edit::Remove { way, spot, count: 0 };
    let none = Seq::<Edit>::empty();
    let single = seq![removal];
    assert forall|state: PatchState|
        state.wf() && state.origin_len == source.len() implies #[trigger] state.run(single)
        == state.run(none) by {
        law_remove_nothing(state, way, spot);
        lemma_run_one(state, removal);
    }
    law_same_effect_in_place(source, before, single, none, after);
    assert(before + none =~= before);
}

/// After a removal that can be made, wherever it stands, an insertion at any
/// offset of the source can be made, at the offsets of the removed bytes too.
pub proof fn law_insert_after_removal(
    source: Seq<u8>,
    before: Seq<Edit>,
    removal: Edit,
    way: Direction,
    spot: nat,
    payload: Seq<u8>,
)
    requires
        removal is Remove,
        patched(source, before.push(removal)) is Ok,
        spot < source.len(),
    ensures
        patched(source, before.push(removal).push(Edit::Insert { way, spot, payload })) is Ok,
{
    let state = PatchState::start(source);
    lemma_start(source);
    let insertion = Edit::Insert { way, spot, payload };
    lemma_run_push(state, before.push(removal), insertion);
    lemma_run_wf(state, before.push(removal));
    let mid = state.run(before.push(removal))->Ok_0;
    law_out_of_bounds(mid, insertion);
}

} // verus!
