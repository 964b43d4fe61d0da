//! The data held by a patch file: a source, and the edits to make to it.
use vstd::prelude::*;
use vstd::string::*;
use vstd::utf8::*;
pub use crate::document::try_parse;

verus! {

/// The side of a spot that an edit works on.
#[derive(Debug, Clone, Copy, PartialEq, Eq, Structural)]
pub enum Direction {
    /// Before the spot: an insertion lands right before the byte at the spot,
    /// a removal takes the bytes that precede it.
    Pre,
    /// After the spot: an insertion lands right after the byte at the spot,
    /// a removal takes the bytes that follow it.
    Post,
}

/// Where bytes come from. `Bytes` and `Text` carry their bytes with them; the
/// other variants name a place that has to be read before the bytes are known.
#[derive(Debug)]
pub enum AssuoSource {
    /// The bytes themselves.
    Bytes(Vec<u8>),
    /// Text, standing for its UTF-8 encoding.
    Text(String),
    /// The path of a file whose content is the bytes.
    File(String),
    /// A URL whose response body is the bytes.
    Url(String),
    /// The path of a patch file; the bytes are what that patch file produces.
    AssuoFile(String),
    /// The URL of a patch file; the bytes are what that patch file produces.
    AssuoUrl(String),
}

/// One edit. `spot` is an offset into the unmodified source.
#[derive(Debug)]
pub enum AssuoPatch<S = AssuoSource> {
    /// Puts the bytes of `source` beside the byte at `spot`.
    Insert { way: Direction, spot: usize, source: S },
    /// Takes `count` bytes away beside the byte at `spot`.
    Remove { way: Direction, spot: usize, count: usize },
}

/// A patch file: the source and the edits, which apply in the order listed.
#[derive(Debug)]
pub struct AssuoFile<S = AssuoSource> {
    /// What the edits are made to. Every spot is an offset into these bytes.
    pub source: S,
    /// The edits, if any.
    pub patch: Option<Vec<AssuoPatch>>,
}

/// The kind of an edit as one word, which says what is done and on which side
/// of the spot. One kind can be named so.
#[derive(Debug, Clone, Copy, PartialEq, Eq, Structural)]
pub enum AssuoModSpot {
    /// Inserts the data right after the spot.
    PostInsert,
}

impl AssuoModSpot {
    /// The edit of this kind at `spot`, with the bytes of `source`.
    pub fn at(self, spot: usize, source: AssuoSource) -> (patch: AssuoPatch<AssuoSource>)
        ensures
            patch@ == (PatchView::Insert {
                way: Direction::Post,
                spot: spot as nat,
                source: source@,
            }),
    {
        match self {
            AssuoModSpot::PostInsert => AssuoPatch::Insert { way: Direction::Post, spot, source },
        }
    }
}

/// An edit as the engine sees it: plain numbers and the bytes to insert.
pub enum Edit {
    Insert { way: Direction, spot: nat, payload: Seq<u8> },
    Remove { way: Direction, spot: nat, count: nat },
}

impl Edit {
    /// The source offset that the edit is anchored at.
    pub open spec fn spot(self) -> nat {
        match self {
            Edit::Insert { spot, .. } => spot,
            Edit::Remove { spot, .. } => spot,
        }
    }

    /// The side of the spot that the edit works on.
    pub open spec fn way(self) -> Direction {
        match self {
            Edit::Insert { way, .. } => way,
            Edit::Remove { way, .. } => way,
        }
    }
}

/// What an [`AssuoSource`] holds.
pub enum SourceView {
    Bytes(Seq<u8>),
    Text(Seq<char>),
    File(Seq<char>),
    Url(Seq<char>),
    AssuoFile(Seq<char>),
    AssuoUrl(Seq<char>),
}

impl SourceView {
    /// Whether the source carries its bytes with it.
    pub open spec fn is_inline(self) -> bool {
        self is Bytes || self is Text
    }

    /// The bytes of an inline source: those of `Bytes` as they are, `Text` in
    /// UTF-8.
    pub open spec fn inline_bytes(self) -> Seq<u8> {
        match self {
            SourceView::Bytes(bytes) => bytes,
            SourceView::Text(text) => encode_utf8(text),
            _ => Seq::empty(),
        }
    }
}

impl View for AssuoSource {
    type V = SourceView;

    open spec fn view(&self) -> SourceView {
        match self {
            AssuoSource::Bytes(bytes) => SourceView::Bytes(bytes@),
            AssuoSource::Text(text) => SourceView::Text(text@),
            AssuoSource::File(path) => SourceView::File(path@),
            AssuoSource::Url(url) => SourceView::Url(url@),
            AssuoSource::AssuoFile(path) => SourceView::AssuoFile(path@),
            AssuoSource::AssuoUrl(url) => SourceView::AssuoUrl(url@),
        }
    }
}

impl AssuoSource {
    /// Tells whether the source carries its bytes with it.
    pub fn carries_bytes(&self) -> (r: bool)
        ensures
            r == self@.is_inline(),
    {
        match self {
            AssuoSource::Bytes(_) => true,
            AssuoSource::Text(_) => true,
            _ => false,
        }
    }

    /// The bytes of an inline source: those of `Bytes` as they are, `Text` in
    /// UTF-8.
    pub fn resolve(self) -> (bytes: Vec<u8>)
        requires
            self@.is_inline(),
        ensures
            bytes@ == self@.inline_bytes(),
    {
        match self {
            AssuoSource::Bytes(bytes) => bytes,
            AssuoSource::Text(text) => text.as_str().as_bytes_vec(),
            _ => Vec::new(),
        }
    }
}

/// What an [`AssuoPatch`] holds while its source may still have to be read.
pub enum PatchView {
    Insert { way: Direction, spot: nat, source: SourceView },
    Remove { way: Direction, spot: nat, count: nat },
}

impl PatchView {
    /// Whether the edit needs nothing read: a removal, or an insertion of an
    /// inline source.
    pub open spec fn is_inline(self) -> bool {
        match self {
            PatchView::Insert { source, .. } => source.is_inline(),
            PatchView::Remove { .. } => true,
        }
    }

    /// The edit that this stands for once its source is inline.
    pub open spec fn edit(self) -> Edit {
        match self {
            PatchView::Insert { way, spot, source } => Edit::Insert {
                way,
                spot,
                payload: source.inline_bytes(),
            },
            PatchView::Remove { way, spot, count } => Edit::Remove { way, spot, count },
        }
    }
}

impl View for AssuoPatch<Vec<u8>> {
    type V = Edit;

    open spec fn view(&self) -> Edit {
        match self {
            AssuoPatch::Insert { way, spot, source } => Edit::Insert {
                way: *way,
                spot: *spot as nat,
                payload: source@,
            },
            AssuoPatch::Remove { way, spot, count } => Edit::Remove {
                way: *way,
                spot: *spot as nat,
                count: *count as nat,
            },
        }
    }
}

impl View for AssuoPatch<AssuoSource> {
    type V = PatchView;

    open spec fn view(&self) -> PatchView {
        match self {
            AssuoPatch::Insert { way, spot, source } => PatchView::Insert {
                way: *way,
                spot: *spot as nat,
                source: source@,
            },
            AssuoPatch::Remove { way, spot, count } => PatchView::Remove {
                way: *way,
                spot: *spot as nat,
                count: *count as nat,
            },
        }
    }
}

impl AssuoPatch<AssuoSource> {
    /// Tells whether the edit needs nothing read.
    pub fn carries_bytes(&self) -> (r: bool)
        ensures
            r == self@.is_inline(),
    {
        match self {
            AssuoPatch::Insert { source, .. } => source.carries_bytes(),
            AssuoPatch::Remove { .. } => true,
        }
    }

    /// The same edit with the bytes of its source in place of the source.
    pub fn resolve(self) -> (edit: AssuoPatch<Vec<u8>>)
        requires
            self@.is_inline(),
        ensures
            edit@ == self@.edit(),
    {
        match self {
            AssuoPatch::Insert { way, spot, source } => AssuoPatch::Insert {
                way,
                spot,
                source: source.resolve(),
            },
            AssuoPatch::Remove { way, spot, count } => AssuoPatch::Remove { way, spot, count },
        }
    }
}

/// The views of a list of patches, in order.
pub open spec fn patch_views(patches: Seq<AssuoPatch<AssuoSource>>) -> Seq<PatchView> {
    patches.map_values(|patch: AssuoPatch<AssuoSource>| patch@)
}

/// What an [`AssuoFile`] holds.
pub struct FileView {
    pub source: SourceView,
    pub patch: Option<Seq<PatchView>>,
}

impl FileView {
    /// The patches of the file, in order; none where the list is absent.
    pub open spec fn patches(self) -> Seq<PatchView> {
        match self.patch {
            Some(patches) => patches,
            None => Seq::empty(),
        }
    }

    /// Whether nothing has to be read: the source and the source of every
    /// insertion carry their bytes with them.
    pub open spec fn is_inline(self) -> bool {
        &&& self.source.is_inline()
        &&& forall|i: int|
            0 <= i < self.patches().len() ==> (#[trigger] self.patches()[i]).is_inline()
    }

    /// The edits of the file, in order.
    pub open spec fn edits(self) -> Seq<Edit> {
        self.patches().map_values(|patch: PatchView| patch.edit())
    }
}

impl View for AssuoFile<AssuoSource> {
    type V = FileView;

    open spec fn view(&self) -> FileView {
        FileView {
            source: self.source@,
            patch: match self.patch {
                Some(patches) => Some(patch_views(patches@)),
                None => None,
            },
        }
    }
}

impl AssuoFile<AssuoSource> {
    /// Tells whether nothing has to be read.
    pub fn carries_bytes(&self) -> (r: bool)
        ensures
            r == self@.is_inline(),
    {
        if !self.source.carries_bytes() {
            return false;
        }
        match &self.patch {
            None => true,
            Some(patches) => {
                let mut i: usize = 0;
                while i < patches.len()
                    invariant
                        i <= patches.len(),
                        self@.source.is_inline(),
                        self@.patches() == patch_views(patches@),
                        forall|j: int| 0 <= j < i ==> (#[trigger] patches@[j])@.is_inline(),
                    decreases patches.len() - i,
                {
                    if !patches[i].carries_bytes() {
                        assert(!self@.patches()[i as int].is_inline());
                        return false;
                    }
                    i += 1;
                }
                assert forall|j: int| 0 <= j < self@.patches().len() implies (
                #[trigger] self@.patches()[j]).is_inline() by {
                    assert(patches@[j]@.is_inline());
                }
                true
            },
        }
    }

    /// The same file with the bytes of its source in place of the source. The
    /// patches stay as they are.
    pub fn resolve(self) -> (file: AssuoFile<Vec<u8>>)
        requires
            self@.source.is_inline(),
        ensures
            file.source@ == self@.source.inline_bytes(),
            file.patch == self.patch,
    {
        AssuoFile { source: self.source.resolve(), patch: self.patch }
    }
}

} // verus!
