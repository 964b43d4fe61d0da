//! What patching means, over sequences and sets.
use vstd::prelude::*;
use crate::models::{Direction, Edit};

verus! {

/// Why an edit list cannot be applied.
#[derive(Debug, Clone, Copy, PartialEq, Eq, Structural)]
pub enum PatchError {
    /// A spot is no offset of the unmodified source, so no position of the
    /// buffer answers to it.
    OutOfBounds,
    /// A removal asks for more bytes than the buffer holds on that side.
    InvalidRemoveRange,
    /// A source has not been read yet, so its bytes are not known.
    UnresolvedSource,
}

/// The buffer while it is being patched, together with the offset index.
///
/// `origins` runs parallel to `bytes`: `origins[i]` is the set of source
/// offsets that position `i` answers to. At first each position answers to its
/// own offset. A byte that was inserted answers to none; the byte that closes
/// the gap of a removal answers, besides its own, to the offsets of the bytes
/// removed.
pub struct PatchState {
    pub bytes: Seq<u8>,
    pub origins: Seq<Set<nat>>,
    /// The length of the source before any edit.
    pub origin_len: nat,
}

/// `count` slots that answer to no source offset.
pub open spec fn blanks(count: nat) -> Seq<Set<nat>> {
    Seq::new(count, |i: int| Set::<nat>::empty())
}

/// `s` with `items` put in before position `at`.
pub open spec fn splice_in<T>(s: Seq<T>, at: int, items: Seq<T>) -> Seq<T> {
    s.subrange(0, at) + items + s.subrange(at, s.len() as int)
}

/// `s` without the `count` items from position `start` on.
pub open spec fn cut_out<T>(s: Seq<T>, start: int, count: int) -> Seq<T> {
    s.subrange(0, start) + s.subrange(start + count, s.len() as int)
}

/// Every source offset that one of the slots `start .. start + count`
/// answers to.
pub open spec fn gathered(origins: Seq<Set<nat>>, start: int, count: int) -> Set<nat> {
    Set::new(
        |id: nat|
            exists|k: int|
                start <= k < start + count && 0 <= k < origins.len() && #[trigger] origins[k].contains(
                    id,
                ),
    )
}

/// The position that an insertion on side `way` of position `at` is made at.
pub open spec fn point_of(at: int, way: Direction) -> int {
    if way == Direction::Pre {
        at
    } else {
        at + 1
    }
}

/// The position of the slot that takes over what the slots
/// `start .. start + count` of an index of `len` slots answered to, when these
/// are removed: the slot right behind them, which moves to where they began;
/// where they end the index, the slot right before them.
pub open spec fn heir_of(len: int, start: int, count: int) -> int {
    if start + count < len {
        start + count
    } else {
        start - 1
    }
}

/// Whether some slot answers to `spot`.
pub open spec fn resolves(origins: Seq<Set<nat>>, spot: nat) -> bool {
    exists|i: int| 0 <= i < origins.len() && #[trigger] origins[i].contains(spot)
}

/// The position of the slot that answers to `spot`.
pub open spec fn slot_of(origins: Seq<Set<nat>>, spot: nat) -> int {
    choose|i: int| 0 <= i < origins.len() && #[trigger] origins[i].contains(spot)
}

impl PatchState {
    /// The state before any edit: the source, each position answering to its
    /// own offset.
    pub open spec fn start(source: Seq<u8>) -> PatchState {
        PatchState {
            bytes: source,
            origins: Seq::new(source.len(), |i: int| set![i as nat]),
            origin_len: source.len(),
        }
    }

    /// What holds of every state that edits lead to: the index runs parallel
    /// to the buffer, and every source offset is answered to by exactly one
    /// slot.
    pub open spec fn wf(self) -> bool {
        &&& self.origins.len() == self.bytes.len()
        &&& forall|i: int, id: nat|
            0 <= i < self.origins.len() && #[trigger] self.origins[i].contains(id) ==> id
                < self.origin_len
        &&& forall|id: nat| id < self.origin_len ==> #[trigger] resolves(self.origins, id)
        &&& forall|i: int, j: int, id: nat|
            0 <= i < self.origins.len() && 0 <= j < self.origins.len()
                && #[trigger] self.origins[i].contains(id) && #[trigger] self.origins[j].contains(
                id,
            ) ==> i == j
    }

    /// The state after an insertion of `payload` before position `at`.
    pub open spec fn with_inserted(self, at: int, payload: Seq<u8>) -> PatchState {
        PatchState {
            bytes: splice_in(self.bytes, at, payload),
            origins: splice_in(self.origins, at, blanks(payload.len())),
            origin_len: self.origin_len,
        }
    }

    /// The state after the removal of positions `start .. start + count`.
    ///
    /// The bytes of the range leave the buffer and its slots leave the index,
    /// so that the two stay parallel. The sets of the removed slots are united
    /// and handed to the slot at [`heir_of`] the range, which stands where the
    /// range began once the range is gone: a removed offset resolves to the
    /// point at which the buffer closed.
    pub open spec fn with_removed(self, start: int, count: int) -> PatchState {
        let heir = heir_of(self.bytes.len() as int, start, count);
        let merged = self.origins[heir] + gathered(self.origins, start, count);
        PatchState {
            bytes: cut_out(self.bytes, start, count),
            origins: cut_out(self.origins.update(heir, merged), start, count),
            origin_len: self.origin_len,
        }
    }

    /// The state after one edit, or the reason why the edit cannot be made.
    ///
    /// The spot is resolved to the position `at` of the slot that answers to
    /// it; where no slot does, the edit is `OutOfBounds`.
    ///
    /// An insertion puts its payload in right before position `at` (`Pre`) or
    /// right after it (`Post`), and as many blank slots into the index.
    ///
    /// A removal takes the `count` positions right before `at` (`Pre`) or right
    /// after it (`Post`); where the buffer has fewer on that side, it is an
    /// `InvalidRemoveRange`. The position `at` itself stays.
    pub open spec fn step(self, edit: Edit) -> Result<PatchState, PatchError> {
        if !resolves(self.origins, edit.spot()) {
            Err(PatchError::OutOfBounds)
        } else {
            let at = slot_of(self.origins, edit.spot());
            match edit {
                Edit::Insert { way, payload, .. } => Ok(
                    self.with_inserted(point_of(at, way), payload),
                ),
                Edit::Remove { way, count, .. } => {
                    if way == Direction::Pre {
                        if count <= at {
                            Ok(self.with_removed(at - count, count as int))
                        } else {
                            Err(PatchError::InvalidRemoveRange)
                        }
                    } else {
                        if at + 1 + count <= self.bytes.len() {
                            Ok(self.with_removed(at + 1, count as int))
                        } else {
                            Err(PatchError::InvalidRemoveRange)
                        }
                    }
                },
            }
        }
    }

    /// The state after the edits, made in order, or the reason why the first
    /// edit that cannot be made cannot.
    pub open spec fn run(self, edits: Seq<Edit>) -> Result<PatchState, PatchError>
        decreases edits.len(),
    {
        if edits.len() == 0 {
            Ok(self)
        } else {
            match self.step(edits[0]) {
                Ok(next) => next.run(edits.drop_first()),
                Err(e) => Err(e),
            }
        }
    }
}

/// The bytes that `edits` make of `source`, or the reason why they cannot be
/// applied.
pub open spec fn patched(source: Seq<u8>, edits: Seq<Edit>) -> Result<Seq<u8>, PatchError> {
    match PatchState::start(source).run(edits) {
        Ok(state) => Ok(state.bytes),
        Err(e) => Err(e),
    }
}

} // verus!
