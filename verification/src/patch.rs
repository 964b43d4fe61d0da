//! The patch engine: a buffer, the offset index beside it, and the edits
//! that change both together.
use vstd::prelude::*;
use crate::lemmas::{
    lemma_insert, lemma_remove, lemma_run_errors, lemma_slot, lemma_slot_exists, lemma_start,
};
use crate::models::{patch_views, AssuoFile, AssuoPatch, Direction, Edit, PatchView};
use crate::semantics::{blanks, gathered, heir_of, patched, resolves, slot_of, splice_in};
use crate::laws::{law_invalid_spot_fails, law_valid_spots_resolve};
pub use crate::semantics::{PatchError, PatchState};

verus! {

/// The source offsets listed in `ids`, as a set.
spec fn ids_of(ids: Seq<usize>) -> Set<nat> {
    Set::new(|id: nat| exists|k: int| 0 <= k < ids.len() && #[trigger] ids[k] as nat == id)
}

/// What one position of the buffer stands for.
enum Origin {
    /// A byte that an edit inserted. It answers to no source offset, so no
    /// spot ever resolves to it.
    Inserted,
    /// A byte of the source, with the source offsets that it answers to: its
    /// own, and those of removed bytes that were folded into it.
    Source(Vec<usize>),
}

impl Origin {
    /// The source offsets that the position answers to.
    spec fn ids(&self) -> Set<nat> {
        match self {
            Origin::Inserted => Set::empty(),
            Origin::Source(ids) => ids_of(ids@),
        }
    }

    /// Whether the position answers to `spot`.
    fn holds(&self, spot: usize) -> (r: bool)
        ensures
            r == self.ids().contains(spot as nat),
    {
        match self {
            Origin::Inserted => false,
            Origin::Source(ids) => {
                let mut k: usize = 0;
                while k < ids.len()
                    invariant
                        k <= ids.len(),
                        self.ids() == ids_of(ids@),
                        forall|j: int| 0 <= j < k ==> ids@[j] != spot,
                    decreases ids.len() - k,
                {
                    if ids[k] == spot {
                        assert(ids@[k as int] as nat == spot as nat);
                        return true;
                    }
                    k += 1;
                }
                false
            },
        }
    }
}

/// The offset index that a list of slots makes up.
spec fn origins_of(slots: Seq<Origin>) -> Seq<Set<nat>> {
    Seq::new(slots.len(), |i: int| slots[i].ids())
}

/// The engine's state during one run: the working buffer and the offset index
/// that runs parallel to it.
pub struct Patcher {
    buffer: Vec<u8>,
    slots: Vec<Origin>,
    source_len: usize,
}

impl View for Patcher {
    type V = PatchState;

    closed spec fn view(&self) -> PatchState {
        PatchState {
            bytes: self.buffer@,
            origins: origins_of(self.slots@),
            origin_len: self.source_len as nat,
        }
    }
}

impl Patcher {
    /// Starts a run on `source`: the buffer is the source, and each position
    /// answers to its own offset.
    pub fn new(source: Vec<u8>) -> (patcher: Patcher)
        ensures
            patcher@ == PatchState::start(source@),
            patcher@.wf(),
    {
        let mut slots: Vec<Origin> = Vec::new();
        let mut i: usize = 0;
        while i < source.len()
            invariant
                i <= source.len(),
                slots@.len() == i,
                forall|j: int| 0 <= j < i ==> (#[trigger] slots@[j]).ids() == set![j as nat],
            decreases source.len() - i,
        {
            let mut ids: Vec<usize> = Vec::new();
            ids.push(i);
            let slot = Origin::Source(ids);
            proof {
                assert(ids@[0] as nat == i as nat);
                assert(slot.ids() =~= set![i as nat]);
            }
            slots.push(slot);
            i += 1;
        }
        let source_len = source.len();
        let patcher = Patcher { buffer: source, slots, source_len };
        proof {
            assert(patcher@.origins =~= PatchState::start(source@).origins);
            lemma_start(source@);
        }
        patcher
    }

    /// The length of the buffer as it stands.
    pub fn len(&self) -> (n: usize)
        ensures
            n == self@.bytes.len(),
    {
        self.buffer.len()
    }

    /// The bytes of the buffer as it stands.
    pub fn into_bytes(self) -> (bytes: Vec<u8>)
        ensures
            bytes@ == self@.bytes,
    {
        self.buffer
    }

    /// The position of the buffer that answers to `spot`, if `spot` is an
    /// offset of the source.
    pub fn get_index(&self, spot: usize) -> (found: Option<usize>)
        requires
            self@.wf(),
        ensures
            found is Some <==> spot < self@.origin_len,
            found matches Some(i) ==> i < self@.bytes.len() && i == slot_of(
                self@.origins,
                spot as nat,
            ) && self@.origins[i as int].contains(spot as nat),
            found is Some <==> resolves(self@.origins, spot as nat),
    {
        let mut i: usize = 0;
        while i < self.slots.len()
            invariant
                i <= self.slots.len(),
                self@.wf(),
                forall|j: int| 0 <= j < i ==> !(#[trigger] self@.origins[j]).contains(spot as nat),
            decreases self.slots.len() - i,
        {
            if self.slots[i].holds(spot) {
                proof {
                    lemma_slot(self@, spot as nat, i as int);
                }
                return Some(i);
            }
            i += 1;
        }
        proof {
            if spot < self@.origin_len {
                lemma_slot_exists(self@, spot as nat);
            }
        }
        None
    }

    /// Puts `payload` into the buffer before position `point`, and as many
    /// slots without origin into the index.
    fn insert_at(&mut self, point: usize, payload: &Vec<u8>)
        requires
            old(self)@.wf(),
            point <= old(self)@.bytes.len(),
        ensures
            final(self)@ == old(self)@.with_inserted(point as int, payload@),
            final(self)@.wf(),
    {
        let mut rest = self.buffer.split_off(point);
        let mut slots_rest = self.slots.split_off(point);
        let mut k: usize = 0;
        while k < payload.len()
            invariant
                k <= payload.len(),
                self.source_len == old(self).source_len,
                self.buffer@ == old(self).buffer@.subrange(0, point as int) + payload@.subrange(
                    0,
                    k as int,
                ),
                self.slots@.len() == point + k,
                forall|j: int|
                    0 <= j < point ==> (#[trigger] self.slots@[j]) == old(self).slots@[j],
                forall|j: int|
                    point <= j < point + k ==> (#[trigger] self.slots@[j]).ids() == Set::<
                        nat,
                    >::empty(),
            decreases payload.len() - k,
        {
            self.buffer.push(payload[k]);
            self.slots.push(Origin::Inserted);
            k += 1;
            proof {
                assert(payload@.subrange(0, k as int) == payload@.subrange(0, k - 1).push(
                    payload@[k - 1],
                ));
            }
        }
        self.buffer.append(&mut rest);
        self.slots.append(&mut slots_rest);
        proof {
            assert(payload@.subrange(0, payload@.len() as int) == payload@);
            assert(self@.bytes == splice_in(old(self)@.bytes, point as int, payload@));
            assert(self@.origins =~= splice_in(
                old(self)@.origins,
                point as int,
                blanks(payload@.len()),
            ));
            lemma_insert(old(self)@, point as int, payload@);
        }
    }

    /// Takes the positions `start .. start + count` out of the buffer and out
    /// of the index. The slot right behind them takes over what the removed
    /// slots answered to; where none is behind them, the slot right before
    /// them does.
    fn remove_range(&mut self, start: usize, count: usize)
        requires
            old(self)@.wf(),
            start + count <= old(self)@.bytes.len(),
            start + count < old(self)@.bytes.len() || 1 <= start,
        ensures
            final(self)@ == old(self)@.with_removed(start as int, count as int),
            final(self)@.wf(),
    {
        let ghost origins = self@.origins;
        assert(start + count <= self.slots.len());
        let end = start + count;
        let heir = if end < self.slots.len() {
            end
        } else {
            start - 1
        };
        assert(heir == heir_of(self@.bytes.len() as int, start as int, count as int));
        let mut merged: Vec<usize> = Vec::new();
        match &self.slots[heir] {
            Origin::Inserted => {},
            Origin::Source(ids) => {
                let mut j: usize = 0;
                while j < ids.len()
                    invariant
                        j <= ids.len(),
                        merged@ == ids@.subrange(0, j as int),
                    decreases ids.len() - j,
                {
                    merged.push(ids[j]);
                    j += 1;
                }
                proof {
                    assert(merged@ == ids@);
                }
            },
        }
        assert(ids_of(merged@) == origins[heir as int]) by {
            assert(ids_of(merged@) =~= origins[heir as int]);
        }
        let mut k: usize = start;
        while k < end
            invariant
                start <= k <= end,
                end == start + count,
                end <= self.slots@.len(),
                heir < self.slots@.len(),
                origins == origins_of(self.slots@),
                ids_of(merged@) == origins[heir as int] + gathered(
                    origins,
                    start as int,
                    k - start,
                ),
            decreases end - k,
        {
            match &self.slots[k] {
                Origin::Inserted => {
                    proof {
                        assert(origins[k as int] == Set::<nat>::empty());
                        assert(gathered(origins, start as int, k + 1 - start) =~= gathered(
                            origins,
                            start as int,
                            k - start,
                        ));
                    }
                },
                Origin::Source(ids) => {
                    let ghost before = merged@;
                    let mut j: usize = 0;
                    while j < ids.len()
                        invariant
                            j <= ids.len(),
                            merged@ == before + ids@.subrange(0, j as int),
                        decreases ids.len() - j,
                    {
                        merged.push(ids[j]);
                        j += 1;
                        proof {
                            assert(ids@.subrange(0, j as int) == ids@.subrange(0, j - 1).push(
                                ids@[j - 1],
                            ));
                        }
                    }
                    proof {
                        assert(ids@.subrange(0, ids@.len() as int) == ids@);
                        lemma_ids_of_add(before, ids@);
                        assert(origins[k as int] == ids_of(ids@));
                        lemma_gathered_next(origins, start as int, k - start);
                        assert(ids_of(merged@) =~= origins[heir as int] + gathered(
                            origins,
                            start as int,
                            k + 1 - start,
                        ));
                    }
                },
            }
            k += 1;
        }
        self.slots[heir] = Origin::Source(merged);
        let mut slots_rest = self.slots.split_off(end);
        self.slots.truncate(start);
        self.slots.append(&mut slots_rest);
        let mut rest = self.buffer.split_off(end);
        self.buffer.truncate(start);
        self.buffer.append(&mut rest);
        proof {
            let target = old(self)@.with_removed(start as int, count as int);
            assert(self@.bytes == target.bytes);
            assert(self@.origins =~= target.origins);
            lemma_remove(old(self)@, start as int, count as int);
        }
    }

    /// Makes one edit. On an error the buffer and the index are as they were.
    pub fn apply_edit(&mut self, edit: &AssuoPatch<Vec<u8>>) -> (r: Result<(), PatchError>)
        requires
            old(self)@.wf(),
        ensures
            final(self)@.wf(),
            r is Ok ==> old(self)@.step(edit@) == Ok::<PatchState, PatchError>(final(self)@),
            r matches Err(e) ==> old(self)@.step(edit@) == Err::<PatchState, PatchError>(e)
                && final(self)@ == old(self)@,
    {
        match edit {
            AssuoPatch::Insert { way, spot, source } => {
                match self.get_index(*spot) {
                    None => Err(PatchError::OutOfBounds),
                    Some(at) => {
                        assert(at < self.buffer.len());
                        let point = match way {
                            Direction::Pre => at,
                            Direction::Post => at + 1,
                        };
                        self.insert_at(point, source);
                        Ok(())
                    },
                }
            },
            AssuoPatch::Remove { way, spot, count } => {
                match self.get_index(*spot) {
                    None => Err(PatchError::OutOfBounds),
                    Some(at) => {
                        match way {
                            Direction::Pre => {
                                if *count <= at {
                                    self.remove_range(at - *count, *count);
                                    Ok(())
                                } else {
                                    Err(PatchError::InvalidRemoveRange)
                                }
                            },
                            Direction::Post => {
                                if *count <= self.buffer.len() - (at + 1) {
                                    self.remove_range(at + 1, *count);
                                    Ok(())
                                } else {
                                    Err(PatchError::InvalidRemoveRange)
                                }
                            },
                        }
                    },
                }
            },
        }
    }
}

/// The edits that a list of patches stands for, in order.
pub open spec fn edits_of(patches: Seq<AssuoPatch<Vec<u8>>>) -> Seq<Edit> {
    patches.map_values(|patch: AssuoPatch<Vec<u8>>| patch@)
}

/// Applies `edits` to `source` in the order listed and returns the patched
/// bytes. Every spot is an offset into `source` as it was handed in, however
/// many edits ran before.
///
/// Fails with `OutOfBounds` at the first edit whose spot is no offset of
/// `source`, and with `InvalidRemoveRange` at the first removal that reaches
/// past either end of the buffer as it stands by then. A list in which some
/// spot is no offset of `source` fails in one of the two ways; a list of
/// which every spot is one is never out of bounds.
#[verifier::loop_isolation(false)]
pub fn apply(source: Vec<u8>, edits: &Vec<AssuoPatch<Vec<u8>>>) -> (r: Result<Vec<u8>, PatchError>)
    ensures
        r matches Ok(out) ==> patched(source@, edits_of(edits@)) == Ok::<Seq<u8>, PatchError>(
            out@,
        ),
        r matches Err(e) ==> patched(source@, edits_of(edits@)) == Err::<Seq<u8>, PatchError>(e),
        r != Err::<Vec<u8>, PatchError>(PatchError::UnresolvedSource),
        edits@.len() == 0 ==> (r matches Ok(out) && out@ == source@),
        (exists|i: int|
            0 <= i < edits@.len() && (#[trigger] edits_of(edits@)[i]).spot() >= source@.len())
            ==> r is Err,
        (forall|i: int|
            0 <= i < edits@.len() ==> (#[trigger] edits_of(edits@)[i]).spot() < source@.len())
            ==> r != Err::<Vec<u8>, PatchError>(PatchError::OutOfBounds),
{
    let ghost all = edits_of(edits@);
    let ghost begin = PatchState::start(source@);
    proof {
        lemma_run_errors(begin, all);
        if exists|i: int| 0 <= i < all.len() && (#[trigger] all[i]).spot() >= source@.len() {
            let k = choose|i: int| 0 <= i < all.len() && (#[trigger] all[i]).spot() >= source@.len();
            law_invalid_spot_fails(source@, all, k);
        } else {
            law_valid_spots_resolve(source@, all);
        }
        assert(all.skip(0) == all);
    }
    let mut patcher = Patcher::new(source);
    let mut i: usize = 0;
    while i < edits.len()
        invariant
            i <= edits.len(),
            patcher@.wf(),
            patcher@.run(all.skip(i as int)) == begin.run(all),
        decreases edits.len() - i,
    {
        proof {
            assert(all.skip(i as int)[0] == edits@[i as int]@);
            assert(all.skip(i as int).drop_first() == all.skip(i + 1));
        }
        match patcher.apply_edit(&edits[i]) {
            Ok(()) => {},
            Err(e) => {
                return Err(e);
            },
        }
        i += 1;
    }
    proof {
        assert(all.skip(i as int).len() == 0);
    }
    Ok(patcher.into_bytes())
}

/// Patches a file whose sources are all inline: applies its edits, in the
/// order listed, to the bytes of its source.
///
/// Fails with `UnresolvedSource` where a source has to be read first, whatever
/// the edits say; else as [`apply`] does.
pub fn do_patch(file: AssuoFile) -> (r: Result<Vec<u8>, PatchError>)
    ensures
        !file@.is_inline() ==> r == Err::<Vec<u8>, PatchError>(PatchError::UnresolvedSource),
        file@.is_inline() ==> (r matches Ok(out) ==> patched(
            file@.source.inline_bytes(),
            file@.edits(),
        ) == Ok::<Seq<u8>, PatchError>(out@)),
        file@.is_inline() ==> (r matches Err(e) ==> patched(
            file@.source.inline_bytes(),
            file@.edits(),
        ) == Err::<Seq<u8>, PatchError>(e)),
        file@.is_inline() && file@.patches().len() == 0 ==> (r matches Ok(out) && out@
            == file@.source.inline_bytes()),
{
    if !file.carries_bytes() {
        return Err(PatchError::UnresolvedSource);
    }
    let ghost all = file@.edits();
    let ghost listed = file@.patches();
    let file = file.resolve();
    let mut edits: Vec<AssuoPatch<Vec<u8>>> = Vec::new();
    match file.patch {
        None => {},
        Some(patches) => {
            for patch in iter: patches
                invariant
                    listed == patch_views(iter.seq()),
                    forall|j: int| 0 <= j < listed.len() ==> (#[trigger] listed[j]).is_inline(),
                    all == listed.map_values(|patch: PatchView| patch.edit()),
                    edits_of(edits@) == all.take(iter.index() as int),
            {
                let ghost edit = patch@.edit();
                let ghost done = edits@;
                proof {
                    assert(patch == iter.seq()[iter.index() as int]);
                    assert(listed[iter.index() as int] == patch@);
                    assert(all[iter.index() as int] == edit);
                }
                edits.push(patch.resolve());
                proof {
                    assert(edits@ == done.push(edits@.last()));
                    assert(edits_of(edits@) =~= edits_of(done).push(edit));
                    assert(all.take(iter.index() + 1) =~= all.take(iter.index() as int).push(edit));
                }
            }
        },
    }
    proof {
        assert(edits_of(edits@) =~= all);
    }
    apply(file.source, &edits)
}

/// The set of a concatenation is the union of the sets.
proof fn lemma_ids_of_add(a: Seq<usize>, b: Seq<usize>)
    ensures
        ids_of(a + b) == ids_of(a) + ids_of(b),
{
    assert forall|id: nat| ids_of(a + b).contains(id) implies (ids_of(a) + ids_of(b)).contains(
        id,
    ) by {
        let k = choose|k: int| 0 <= k < (a + b).len() && #[trigger] (a + b)[k] as nat == id;
        if k < a.len() {
            assert(a[k] as nat == id);
        } else {
            assert(b[k - a.len()] as nat == id);
        }
    }
    assert forall|id: nat| (ids_of(a) + ids_of(b)).contains(id) implies ids_of(a + b).contains(
        id,
    ) by {
        if ids_of(a).contains(id) {
            let k = choose|k: int| 0 <= k < a.len() && #[trigger] a[k] as nat == id;
            assert((a + b)[k] as nat == id);
        } else {
            let k = choose|k: int| 0 <= k < b.len() && #[trigger] b[k] as nat == id;
            assert((a + b)[k + a.len()] as nat == id);
        }
    }
    assert(ids_of(a + b) =~= ids_of(a) + ids_of(b));
}

/// Gathering one slot more adds the offsets of that slot.
proof fn lemma_gathered_next(origins: Seq<Set<nat>>, start: int, count: int)
    requires
        0 <= start,
        0 <= count,
        start + count < origins.len(),
    ensures
        gathered(origins, start, count + 1) == gathered(origins, start, count) + origins[start
            + count],
{
    let more = gathered(origins, start, count + 1);
    let less = gathered(origins, start, count) + origins[start + count];
    assert forall|id: nat| more.contains(id) implies less.contains(id) by {
        let k = choose|k: int|
            start <= k < start + count + 1 && 0 <= k < origins.len()
                && #[trigger] origins[k].contains(id);
        if k < start + count {
            assert(gathered(origins, start, count).contains(id));
        }
    }
    assert forall|id: nat| less.contains(id) implies more.contains(id) by {
        if gathered(origins, start, count).contains(id) {
            let k = choose|k: int|
                start <= k < start + count && 0 <= k < origins.len()
                    && #[trigger] origins[k].contains(id);
            assert(origins[k].contains(id));
        } else {
            assert(origins[start + count].contains(id));
        }
    }
    assert(more =~= less);
}

} // verus!
