//! That insertions weave their payloads around the bytes of the source: the
//! steps of the proof.
use vstd::prelude::*;
use crate::laws::{payload_at, post_block, pre_block, woven};
use crate::lemmas::{lemma_insert, lemma_insert_step, lemma_run_push, lemma_start, shifted};
use crate::models::{Direction, Edit};
use crate::semantics::{point_of, slot_of, splice_in, PatchState};

verus! {

/// Where the byte at offset `id` stands among the woven bytes.
pub open spec fn place(source: Seq<u8>, edits: Seq<Edit>, id: nat) -> int {
    (woven(source, edits, id).len() + pre_block(edits, id).len()) as int
}

/// Whether `state` is what `edits`, all of them insertions, make of `source`.
pub open spec fn is_woven(state: PatchState, source: Seq<u8>, edits: Seq<Edit>) -> bool {
    &&& state.wf()
    &&& state.origin_len == source.len()
    &&& state.bytes == woven(source, edits, source.len())
    &&& forall|id: nat|
        id < source.len() ==> #[trigger] slot_of(state.origins, id) == place(source, edits, id)
}

/// With no edits the weave of the first bytes is those bytes.
pub proof fn lemma_woven_of_none(source: Seq<u8>, upto: nat)
    requires
        upto <= source.len(),
    ensures
        woven(source, Seq::<Edit>::empty(), upto) == source.take(upto as int),
        place(source, Seq::<Edit>::empty(), upto) == upto,
    decreases upto,
{
    let none = Seq::<Edit>::empty();
    if upto > 0 {
        let k = (upto - 1) as nat;
        lemma_woven_of_none(source, k);
        assert(pre_block(none, k) =~= Seq::<u8>::empty());
        assert(post_block(none, k) =~= Seq::<u8>::empty());
        assert(woven(source, none, upto) =~= source.take(upto as int));
    } else {
        assert(woven(source, none, upto) =~= source.take(upto as int));
    }
    assert(pre_block(none, upto) =~= Seq::<u8>::empty());
}

/// What one more edit adds to the blocks: its payload, at the end that is
/// nearer to the byte.
pub proof fn lemma_blocks_push(edits: Seq<Edit>, last: Edit, id: nat)
    ensures
        pre_block(edits.push(last), id) == pre_block(edits, id) + payload_at(
            last,
            Direction::Pre,
            id,
        ),
        post_block(edits.push(last), id) == payload_at(last, Direction::Post, id) + post_block(
            edits,
            id,
        ),
{
    let all = edits.push(last);
    assert(all.drop_last() =~= edits);
    assert(all.last() == last);
}

/// Bytes appended behind the point of a splice stay behind it.
pub proof fn lemma_splice_then_add(a: Seq<u8>, point: int, payload: Seq<u8>, b: Seq<u8>)
    requires
        0 <= point <= a.len(),
    ensures
        splice_in(a, point, payload) + b == splice_in(a + b, point, payload),
{
    assert(splice_in(a, point, payload) + b =~= splice_in(a + b, point, payload));
}

/// The weave grows with each byte, and each byte has its place within it.
pub proof fn lemma_place_within(source: Seq<u8>, edits: Seq<Edit>, id: nat)
    requires
        id < source.len(),
    ensures
        0 <= place(source, edits, id) < woven(source, edits, id + 1).len(),
        woven(source, edits, id + 1).len() == place(source, edits, id) + 1 + post_block(
            edits,
            id,
        ).len(),
        woven(source, edits, id + 1)[place(source, edits, id)] == source[id as int],
{
    assert((id + 1 - 1) as nat == id);
}

/// The weave of more bytes is longer.
pub proof fn lemma_woven_grows(source: Seq<u8>, edits: Seq<Edit>, a: nat, b: nat)
    requires
        a <= b <= source.len(),
    ensures
        woven(source, edits, a).len() <= woven(source, edits, b).len(),
        a < b ==> place(source, edits, a) < woven(source, edits, b).len(),
        a < b ==> place(source, edits, a) < place(source, edits, b),
    decreases b - a,
{
    if a < b {
        lemma_place_within(source, edits, a);
        lemma_woven_grows(source, edits, a + 1, b);
    }
}

/// What one more insertion makes of the weave: below its spot nothing
/// changes; from its spot on its payload is spliced in at the point where the
/// engine puts it.
pub proof fn lemma_woven_push(
    source: Seq<u8>,
    edits: Seq<Edit>,
    way: Direction,
    spot: nat,
    payload: Seq<u8>,
    upto: nat,
)
    requires
        spot < source.len(),
        upto <= source.len(),
    ensures
        ({
            let last = Edit::Insert { way, spot, payload };
            let point = point_of(place(source, edits, spot), way);
            woven(source, edits.push(last), upto) == if upto <= spot {
                woven(source, edits, upto)
            } else {
                splice_in(woven(source, edits, upto), point, payload)
            }
        }),
    decreases upto,
{
    let last = Edit::Insert { way, spot, payload };
    let all = edits.push(last);
    let point = point_of(place(source, edits, spot), way);
    if upto > 0 {
        let k = (upto - 1) as nat;
        lemma_woven_push(source, edits, way, spot, payload, k);
        lemma_blocks_push(edits, last, k);
        let head = woven(source, edits, k);
        let pre = pre_block(edits, k);
        let byte = seq![source[k as int]];
        let post = post_block(edits, k);
        assert(woven(source, edits, upto) == head + pre + byte + post);
        assert(woven(source, all, upto) == woven(source, all, k) + pre_block(all, k) + byte
            + post_block(all, k));
        if k < spot {
            assert(payload_at(last, Direction::Pre, k) =~= Seq::<u8>::empty());
            assert(payload_at(last, Direction::Post, k) =~= Seq::<u8>::empty());
            assert(pre_block(all, k) =~= pre);
            assert(post_block(all, k) =~= post);
        } else if k == spot {
            if way == Direction::Pre {
                assert(payload_at(last, Direction::Post, k) =~= Seq::<u8>::empty());
                assert(post_block(all, k) =~= post);
                assert(pre_block(all, k) == pre + payload);
                assert(head + (pre + payload) + byte + post =~= splice_in(
                    head + pre + byte + post,
                    point,
                    payload,
                ));
            } else {
                assert(payload_at(last, Direction::Pre, k) =~= Seq::<u8>::empty());
                assert(pre_block(all, k) =~= pre);
                assert(post_block(all, k) == payload + post);
                assert(head + pre + byte + (payload + post) =~= splice_in(
                    head + pre + byte + post,
                    point,
                    payload,
                ));
            }
        } else {
            assert(payload_at(last, Direction::Pre, k) =~= Seq::<u8>::empty());
            assert(payload_at(last, Direction::Post, k) =~= Seq::<u8>::empty());
            assert(pre_block(all, k) =~= pre);
            assert(post_block(all, k) =~= post);
            lemma_place_within(source, edits, spot);
            lemma_woven_grows(source, edits, spot + 1, k);
            assert(0 <= point <= head.len());
            lemma_splice_then_add(head, point, payload, pre + byte + post);
            assert(head + (pre + byte + post) =~= head + pre + byte + post);
            assert(splice_in(head, point, payload) + (pre + byte + post) =~= splice_in(
                head,
                point,
                payload,
            ) + pre + byte + post);
        }
    }
}

/// Where each byte stands after one more insertion: the bytes behind the
/// point of the insertion have moved by the length of the payload.
pub proof fn lemma_place_push(
    source: Seq<u8>,
    edits: Seq<Edit>,
    way: Direction,
    spot: nat,
    payload: Seq<u8>,
    id: nat,
)
    requires
        spot < source.len(),
        id < source.len(),
    ensures
        ({
            let last = Edit::Insert { way, spot, payload };
            let point = point_of(place(source, edits, spot), way);
            place(source, edits.push(last), id) == shifted(
                place(source, edits, id),
                point,
                payload.len() as int,
            )
        }),
{
    let last = Edit::Insert { way, spot, payload };
    let point = point_of(place(source, edits, spot), way);
    lemma_woven_push(source, edits, way, spot, payload, id);
    lemma_blocks_push(edits, last, id);
    if id < spot {
        lemma_woven_grows(source, edits, id, spot);
        assert(payload_at(last, Direction::Pre, id) =~= Seq::<u8>::empty());
    } else if id == spot {
        if way == Direction::Post {
            assert(payload_at(last, Direction::Pre, id) =~= Seq::<u8>::empty());
        }
    } else {
        lemma_woven_grows(source, edits, spot, id);
        lemma_place_within(source, edits, spot);
        lemma_woven_grows(source, edits, spot + 1, id);
        assert(payload_at(last, Direction::Pre, id) =~= Seq::<u8>::empty());
    }
}

/// One more insertion leads from the weave of the edits so far to the weave of
/// all.
pub proof fn lemma_weave_step(
    state: PatchState,
    source: Seq<u8>,
    edits: Seq<Edit>,
    way: Direction,
    spot: nat,
    payload: Seq<u8>,
)
    requires
        is_woven(state, source, edits),
        spot < source.len(),
    ensures
        state.step(Edit::Insert { way, spot, payload }) is Ok,
        is_woven(
            state.step(Edit::Insert { way, spot, payload })->Ok_0,
            source,
            edits.push(Edit::Insert { way, spot, payload }),
        ),
{
    let last = Edit::Insert { way, spot, payload };
    let all = edits.push(last);
    let point = point_of(slot_of(state.origins, spot), way);
    assert(slot_of(state.origins, spot) == place(source, edits, spot));
    lemma_insert_step(state, way, spot, payload);
    lemma_insert(state, point, payload);
    let next = state.with_inserted(point, payload);
    lemma_woven_push(source, edits, way, spot, payload, source.len());
    assert forall|id: nat| id < source.len() implies #[trigger] slot_of(next.origins, id) == place(
        source,
        all,
        id,
    ) by {
        lemma_place_push(source, edits, way, spot, payload, id);
        assert(slot_of(state.origins, id) == place(source, edits, id));
    }
}

/// Insertions at offsets of the source lead from the source to their weave.
pub proof fn lemma_weave(source: Seq<u8>, edits: Seq<Edit>)
    requires
        forall|i: int|
            0 <= i < edits.len() ==> (#[trigger] edits[i]) is Insert && edits[i].spot()
                < source.len(),
    ensures
        PatchState::start(source).run(edits) is Ok,
        is_woven(PatchState::start(source).run(edits)->Ok_0, source, edits),
    decreases edits.len(),
{
    let state = PatchState::start(source);
    if edits.len() == 0 {
        lemma_start(source);
        lemma_woven_of_none(source, source.len());
        assert(source.take(source.len() as int) =~= source);
        assert forall|id: nat| id < source.len() implies #[trigger] slot_of(state.origins, id)
            == place(source, edits, id) by {
            lemma_woven_of_none(source, id);
            assert(edits =~= Seq::<Edit>::empty());
        }
        assert(edits =~= Seq::<Edit>::empty());
    } else {
        let init = edits.drop_last();
        let last = edits.last();
        assert(edits =~= init.push(last));
        lemma_weave(source, init);
        lemma_run_push(state, init, last);
        let mid = state.run(init)->Ok_0;
        lemma_weave_step(mid, source, init, last.way(), last.spot(), last->payload);
    }
}

} // verus!
