//! Reading a patch file out of a TOML document.
//!
//! A document is a table with a `source` and, if there are edits, a list
//! `patch`. A source is a table with one entry, whose key says what the value
//! is: `bytes` (a list of integers from 0 to 255), `text`, `file`, `url`,
//! `assuo-file` or `assuo-url` (strings). An edit is a table with `do`
//! (`insert` or `remove`, in any case), `way` (`pre` or `post`), `spot`, and
//! either a `source` or a `count`.
use vstd::prelude::*;
use crate::models::{
    patch_views, AssuoFile, AssuoModSpot, AssuoPatch, AssuoSource, Direction, FileView, PatchView,
    SourceView,
};
use crate::text::{eq_ignore_ascii_case, same_text, text_matches};
use crate::value::{lookup, table_get, TomlValue};

verus! {

/// Why a value is no patch file, edit or source.
#[derive(Debug, Clone, Copy, PartialEq, Eq, Structural)]
pub enum DecodeError {
    /// The document is no table.
    FileNotATable,
    /// The document has no `source`.
    FileWithoutSource,
    /// `patch` is no list.
    PatchListNotAnArray,
    /// An edit is no table.
    PatchNotATable,
    /// An edit has no `do`.
    DoMissing,
    /// `do` is no string.
    DoNotAString,
    /// `do` is neither `insert` nor `remove`.
    DoUnknown,
    /// An edit has no `way`.
    WayMissing,
    /// `way` is no string.
    WayNotAString,
    /// `way` is neither `pre` nor `post`.
    WayUnknown,
    /// An edit has no `spot`.
    SpotMissing,
    /// `spot` is no integer.
    SpotNotAnInteger,
    /// An insertion has no `source`.
    SourceMissing,
    /// A removal has no `count`.
    CountMissing,
    /// `count` is no integer.
    CountNotAnInteger,
    /// A source is no table.
    SourceNotATable,
    /// A source has no entry, or more than one.
    SourceNotSingle,
    /// A source holds a list under another key than `bytes`.
    ArrayNotBytes,
    /// A byte is below 0 or above 255.
    ByteOutOfRange,
    /// An item of `bytes` is no integer.
    ByteNotAnInteger,
    /// A source holds a string under a key that names no kind of source.
    SourceKeyUnknown,
    /// A source holds neither a list nor a string.
    SourceValueInvalid,
    /// The one-word kind of an edit is no string.
    ModifyNotAString,
    /// The one-word kind of an edit is none that is known.
    ModifyUnknown,
}

impl DecodeError {
    /// The error in words.
    pub open spec fn text(self) -> Seq<char> {
        match self {
            DecodeError::FileNotATable => "expected a table as document"@,
            DecodeError::FileWithoutSource => "missing field `source`"@,
            DecodeError::PatchListNotAnArray => "expected a sequence for `patch`"@,
            DecodeError::PatchNotATable => "didn't get a table as payload"@,
            DecodeError::DoMissing => "didn't get key 'do' with insert or remove"@,
            DecodeError::DoNotAString => "expected string for action 'do', didn't get that"@,
            DecodeError::DoUnknown => "expected either 'insert' or 'remove' for 'do'"@,
            DecodeError::WayMissing => "didn't get 'way'"@,
            DecodeError::WayNotAString => "didn't get string for way"@,
            DecodeError::WayUnknown => "didn't get 'pre' or 'post' for 'way'"@,
            DecodeError::SpotMissing => "didn't get 'spot'"@,
            DecodeError::SpotNotAnInteger => "spot wasn't an integer"@,
            DecodeError::SourceMissing => "expected source to be specified, it wasn't"@,
            DecodeError::CountMissing => "expected count to be specified, it wasn't"@,
            DecodeError::CountNotAnInteger => "expected count to be integer, it wasn't"@,
            DecodeError::SourceNotATable => "not table"@,
            DecodeError::SourceNotSingle => "more than 1"@,
            DecodeError::ArrayNotBytes => "got array but didn't get bytes"@,
            DecodeError::ByteOutOfRange => "when converting byte to int, out of bounds [0, 255]"@,
            DecodeError::ByteNotAnInteger => "when reading bytes array, didn't get number in array"@,
            DecodeError::SourceKeyUnknown => "didn't get key text/url/file/assuo-url/assuo-file"@,
            DecodeError::SourceValueInvalid => "invalid value"@,
            DecodeError::ModifyNotAString => "didnt get a string as payload"@,
            DecodeError::ModifyUnknown => "didnt get right modify type"@,
        }
    }

    /// The error in words.
    pub fn message(self) -> (words: &'static str)
        ensures
            words@ == self.text(),
    {
        match self {
            DecodeError::FileNotATable => "expected a table as document",
            DecodeError::FileWithoutSource => "missing field `source`",
            DecodeError::PatchListNotAnArray => "expected a sequence for `patch`",
            DecodeError::PatchNotATable => "didn't get a table as payload",
            DecodeError::DoMissing => "didn't get key 'do' with insert or remove",
            DecodeError::DoNotAString => "expected string for action 'do', didn't get that",
            DecodeError::DoUnknown => "expected either 'insert' or 'remove' for 'do'",
            DecodeError::WayMissing => "didn't get 'way'",
            DecodeError::WayNotAString => "didn't get string for way",
            DecodeError::WayUnknown => "didn't get 'pre' or 'post' for 'way'",
            DecodeError::SpotMissing => "didn't get 'spot'",
            DecodeError::SpotNotAnInteger => "spot wasn't an integer",
            DecodeError::SourceMissing => "expected source to be specified, it wasn't",
            DecodeError::CountMissing => "expected count to be specified, it wasn't",
            DecodeError::CountNotAnInteger => "expected count to be integer, it wasn't",
            DecodeError::SourceNotATable => "not table",
            DecodeError::SourceNotSingle => "more than 1",
            DecodeError::ArrayNotBytes => "got array but didn't get bytes",
            DecodeError::ByteOutOfRange => "when converting byte to int, out of bounds [0, 255]",
            DecodeError::ByteNotAnInteger => "when reading bytes array, didn't get number in array",
            DecodeError::SourceKeyUnknown => "didn't get key text/url/file/assuo-url/assuo-file",
            DecodeError::SourceValueInvalid => "invalid value",
            DecodeError::ModifyNotAString => "didnt get a string as payload",
            DecodeError::ModifyUnknown => "didnt get right modify type",
        }
    }
}

/// `first` in front of what `rest` holds; the error of `rest` where it holds
/// none.
pub open spec fn prepend<T>(first: T, rest: Result<Seq<T>, DecodeError>) -> Result<
    Seq<T>,
    DecodeError,
> {
    match rest {
        Ok(items) => Ok(seq![first] + items),
        Err(e) => Err(e),
    }
}

/// The bytes that a list of integers stands for, or what is wrong with the
/// first item that is no byte.
pub open spec fn decoded_bytes(items: Seq<TomlValue>) -> Result<Seq<u8>, DecodeError>
    decreases items.len(),
{
    if items.len() == 0 {
        Ok(Seq::empty())
    } else {
        match items[0] {
            TomlValue::Integer(i) => if 0 <= i <= 255 {
                prepend(i as u8, decoded_bytes(items.drop_first()))
            } else {
                Err(DecodeError::ByteOutOfRange)
            },
            _ => Err(DecodeError::ByteNotAnInteger),
        }
    }
}

/// The source that a string under the key `name` stands for.
pub open spec fn decoded_named_source(name: Seq<char>, text: Seq<char>) -> Result<
    SourceView,
    DecodeError,
> {
    if name == "text"@ {
        Ok(SourceView::Text(text))
    } else if name == "url"@ {
        Ok(SourceView::Url(text))
    } else if name == "file"@ {
        Ok(SourceView::File(text))
    } else if name == "assuo-url"@ {
        Ok(SourceView::AssuoUrl(text))
    } else if name == "assuo-file"@ {
        Ok(SourceView::AssuoFile(text))
    } else {
        Err(DecodeError::SourceKeyUnknown)
    }
}

/// The source that a value stands for, or why it stands for none.
pub open spec fn decoded_source(value: TomlValue) -> Result<SourceView, DecodeError> {
    match value {
        TomlValue::Table(entries) => if entries@.len() != 1 {
            Err(DecodeError::SourceNotSingle)
        } else {
            let name = entries@[0].0@;
            match entries@[0].1 {
                TomlValue::Array(items) => if name != "bytes"@ {
                    Err(DecodeError::ArrayNotBytes)
                } else {
                    match decoded_bytes(items@) {
                        Ok(bytes) => Ok(SourceView::Bytes(bytes)),
                        Err(e) => Err(e),
                    }
                },
                TomlValue::String(text) => decoded_named_source(name, text@),
                _ => Err(DecodeError::SourceValueInvalid),
            }
        },
        _ => Err(DecodeError::SourceNotATable),
    }
}

/// Whether `do` asks for an insertion (`true`) or a removal (`false`).
pub open spec fn decoded_do(entries: Seq<(String, TomlValue)>) -> Result<bool, DecodeError> {
    match table_get(entries, "do"@) {
        None => Err(DecodeError::DoMissing),
        Some(TomlValue::String(action)) => if text_matches(action@, "INSERT"@) {
            Ok(true)
        } else if text_matches(action@, "REMOVE"@) {
            Ok(false)
        } else {
            Err(DecodeError::DoUnknown)
        },
        Some(_) => Err(DecodeError::DoNotAString),
    }
}

/// The side that `way` names.
pub open spec fn decoded_way(entries: Seq<(String, TomlValue)>) -> Result<Direction, DecodeError> {
    match table_get(entries, "way"@) {
        None => Err(DecodeError::WayMissing),
        Some(TomlValue::String(way)) => if way@ == "pre"@ {
            Ok(Direction::Pre)
        } else if way@ == "post"@ {
            Ok(Direction::Post)
        } else {
            Err(DecodeError::WayUnknown)
        },
        Some(_) => Err(DecodeError::WayNotAString),
    }
}

/// The number under `key`, cut to the machine's word as a cast does, or
/// `missing` where the key is absent and `wrong` where it holds no integer.
pub open spec fn decoded_number(
    entries: Seq<(String, TomlValue)>,
    key: Seq<char>,
    missing: DecodeError,
    wrong: DecodeError,
) -> Result<usize, DecodeError> {
    match table_get(entries, key) {
        None => Err(missing),
        Some(TomlValue::Integer(i)) => Ok(i as usize),
        Some(_) => Err(wrong),
    }
}

/// The edit that a value stands for, or the first thing that is wrong with
/// it, looking at `do`, `way`, `spot` and then `source` or `count`.
pub open spec fn decoded_patch(value: TomlValue) -> Result<PatchView, DecodeError> {
    match value {
        TomlValue::Table(table) => {
            let entries = table@;
            match decoded_do(entries) {
                Err(e) => Err(e),
                Ok(inserts) => match decoded_way(entries) {
                    Err(e) => Err(e),
                    Ok(way) => match decoded_number(
                        entries,
                        "spot"@,
                        DecodeError::SpotMissing,
                        DecodeError::SpotNotAnInteger,
                    ) {
                        Err(e) => Err(e),
                        Ok(spot) => if inserts {
                            match table_get(entries, "source"@) {
                                None => Err(DecodeError::SourceMissing),
                                Some(inner) => match decoded_source(inner) {
                                    Ok(source) => Ok(
                                        PatchView::Insert { way, spot: spot as nat, source },
                                    ),
                                    Err(e) => Err(e),
                                },
                            }
                        } else {
                            match decoded_number(
                                entries,
                                "count"@,
                                DecodeError::CountMissing,
                                DecodeError::CountNotAnInteger,
                            ) {
                                Ok(count) => Ok(
                                    PatchView::Remove { way, spot: spot as nat, count: count as nat },
                                ),
                                Err(e) => Err(e),
                            }
                        },
                    },
                },
            }
        },
        _ => Err(DecodeError::PatchNotATable),
    }
}

/// The edits that a list of values stands for, or what is wrong with the
/// first value that is no edit.
pub open spec fn decoded_patches(items: Seq<TomlValue>) -> Result<Seq<PatchView>, DecodeError>
    decreases items.len(),
{
    if items.len() == 0 {
        Ok(Seq::empty())
    } else {
        match decoded_patch(items[0]) {
            Ok(patch) => prepend(patch, decoded_patches(items.drop_first())),
            Err(e) => Err(e),
        }
    }
}

/// The patch file that a document stands for, or the first thing that is
/// wrong with it, looking at `source` and then at `patch`.
pub open spec fn decoded_file(value: TomlValue) -> Result<FileView, DecodeError> {
    match value {
        TomlValue::Table(table) => match table_get(table@, "source"@) {
            None => Err(DecodeError::FileWithoutSource),
            Some(inner) => match decoded_source(inner) {
                Err(e) => Err(e),
                Ok(source) => match table_get(table@, "patch"@) {
                    None => Ok(FileView { source, patch: None }),
                    Some(TomlValue::Array(items)) => match decoded_patches(items@) {
                        Ok(patches) => Ok(FileView { source, patch: Some(patches) }),
                        Err(e) => Err(e),
                    },
                    Some(_) => Err(DecodeError::PatchListNotAnArray),
                },
            },
        },
        _ => Err(DecodeError::FileNotATable),
    }
}

/// Reads the list of integers under `bytes`.
fn read_bytes(items: &Vec<TomlValue>) -> (r: Result<Vec<u8>, DecodeError>)
    ensures
        r matches Ok(bytes) ==> decoded_bytes(items@) == Ok::<Seq<u8>, DecodeError>(bytes@),
        r matches Err(e) ==> decoded_bytes(items@) == Err::<Seq<u8>, DecodeError>(e),
{
    let mut bytes: Vec<u8> = Vec::new();
    let mut i: usize = 0;
    proof {
        assert(items@.skip(0) =~= items@);
    }
    while i < items.len()
        invariant
            i <= items.len(),
            decoded_bytes(items@) == match decoded_bytes(items@.skip(i as int)) {
                Ok(rest) => Ok(bytes@ + rest),
                Err(e) => Err(e),
            },
        decreases items.len() - i,
    {
        proof {
            assert(items@.skip(i as int)[0] == items@[i as int]);
            assert(items@.skip(i as int).drop_first() =~= items@.skip(i + 1));
        }
        let ghost before = bytes@;
        match &items[i] {
            TomlValue::Integer(value) => {
                if 0 <= *value && *value <= 255 {
                    bytes.push(*value as u8);
                    proof {
                        let rest = decoded_bytes(items@.skip(i + 1));
                        if rest is Ok {
                            assert(before + (seq![*value as u8] + rest->Ok_0) =~= bytes@
                                + rest->Ok_0);
                        }
                    }
                } else {
                    return Err(DecodeError::ByteOutOfRange);
                }
            },
            _ => {
                return Err(DecodeError::ByteNotAnInteger);
            },
        }
        i += 1;
    }
    proof {
        assert(items@.skip(i as int).len() == 0);
        assert(bytes@ + Seq::<u8>::empty() =~= bytes@);
    }
    Ok(bytes)
}

impl AssuoSource {
    /// Reads a source out of a value.
    pub fn deserialize_toml(value: &TomlValue) -> (r: Result<AssuoSource, DecodeError>)
        ensures
            r matches Ok(source) ==> decoded_source(*value) == Ok::<SourceView, DecodeError>(
                source@,
            ),
            r matches Err(e) ==> decoded_source(*value) == Err::<SourceView, DecodeError>(e),
    {
        match value {
            TomlValue::Table(entries) => {
                if entries.len() != 1 {
                    return Err(DecodeError::SourceNotSingle);
                }
                let name = entries[0].0.as_str();
                match &entries[0].1 {
                    TomlValue::Array(items) => {
                        if !same_text(name, "bytes") {
                            Err(DecodeError::ArrayNotBytes)
                        } else {
                            match read_bytes(items) {
                                Ok(bytes) => Ok(AssuoSource::Bytes(bytes)),
                                Err(e) => Err(e),
                            }
                        }
                    },
                    TomlValue::String(text) => {
                        if same_text(name, "text") {
                            Ok(AssuoSource::Text(text.clone()))
                        } else if same_text(name, "url") {
                            Ok(AssuoSource::Url(text.clone()))
                        } else if same_text(name, "file") {
                            Ok(AssuoSource::File(text.clone()))
                        } else if same_text(name, "assuo-url") {
                            Ok(AssuoSource::AssuoUrl(text.clone()))
                        } else if same_text(name, "assuo-file") {
                            Ok(AssuoSource::AssuoFile(text.clone()))
                        } else {
                            Err(DecodeError::SourceKeyUnknown)
                        }
                    },
                    _ => Err(DecodeError::SourceValueInvalid),
                }
            },
            _ => Err(DecodeError::SourceNotATable),
        }
    }
}

/// The kind of edit that a value names by one word: `post insert`, or
/// `post ins` for short.
pub open spec fn decoded_mod_spot(value: TomlValue) -> Result<AssuoModSpot, DecodeError> {
    match value {
        TomlValue::String(word) => if word@ == "post insert"@ || word@ == "post ins"@ {
            Ok(AssuoModSpot::PostInsert)
        } else {
            Err(DecodeError::ModifyUnknown)
        },
        _ => Err(DecodeError::ModifyNotAString),
    }
}

impl AssuoModSpot {
    /// Reads the kind of an edit out of a value.
    pub fn deserialize_toml(value: &TomlValue) -> (r: Result<AssuoModSpot, DecodeError>)
        ensures
            r == decoded_mod_spot(*value),
    {
        match value {
            TomlValue::String(word) => {
                if same_text(word.as_str(), "post insert") || same_text(word.as_str(), "post ins") {
                    Ok(AssuoModSpot::PostInsert)
                } else {
                    Err(DecodeError::ModifyUnknown)
                }
            },
            _ => Err(DecodeError::ModifyNotAString),
        }
    }
}

/// Reads `do`.
fn read_do(entries: &Vec<(String, TomlValue)>) -> (r: Result<bool, DecodeError>)
    ensures
        r == decoded_do(entries@),
{
    match lookup(entries, "do") {
        None => Err(DecodeError::DoMissing),
        Some(TomlValue::String(action)) => {
            if eq_ignore_ascii_case(action.as_str(), "INSERT") {
                Ok(true)
            } else if eq_ignore_ascii_case(action.as_str(), "REMOVE") {
                Ok(false)
            } else {
                Err(DecodeError::DoUnknown)
            }
        },
        Some(_) => Err(DecodeError::DoNotAString),
    }
}

/// Reads `way`.
fn read_way(entries: &Vec<(String, TomlValue)>) -> (r: Result<Direction, DecodeError>)
    ensures
        r == decoded_way(entries@),
{
    match lookup(entries, "way") {
        None => Err(DecodeError::WayMissing),
        Some(TomlValue::String(way)) => {
            if same_text(way.as_str(), "pre") {
                Ok(Direction::Pre)
            } else if same_text(way.as_str(), "post") {
                Ok(Direction::Post)
            } else {
                Err(DecodeError::WayUnknown)
            }
        },
        Some(_) => Err(DecodeError::WayNotAString),
    }
}

/// Reads the number under `key`.
fn read_number(
    entries: &Vec<(String, TomlValue)>,
    key: &str,
    missing: DecodeError,
    wrong: DecodeError,
) -> (r: Result<usize, DecodeError>)
    ensures
        r == decoded_number(entries@, key@, missing, wrong),
{
    match lookup(entries, key) {
        None => Err(missing),
        Some(TomlValue::Integer(value)) => Ok(
            #[verifier::truncate]
            (*value as usize),
        ),
        Some(_) => Err(wrong),
    }
}

impl AssuoPatch<AssuoSource> {
    /// Reads an edit out of a value.
    pub fn deserialize_toml(value: &TomlValue) -> (r: Result<AssuoPatch<AssuoSource>, DecodeError>)
        ensures
            r matches Ok(patch) ==> decoded_patch(*value) == Ok::<PatchView, DecodeError>(patch@),
            r matches Err(e) ==> decoded_patch(*value) == Err::<PatchView, DecodeError>(e),
    {
        let entries = match value {
            TomlValue::Table(entries) => entries,
            _ => {
                return Err(DecodeError::PatchNotATable);
            },
        };
        let inserts = match read_do(entries) {
            Ok(inserts) => inserts,
            Err(e) => {
                return Err(e);
            },
        };
        let way = match read_way(entries) {
            Ok(way) => way,
            Err(e) => {
                return Err(e);
            },
        };
        let spot = match read_number(
            entries,
            "spot",
            DecodeError::SpotMissing,
            DecodeError::SpotNotAnInteger,
        ) {
            Ok(spot) => spot,
            Err(e) => {
                return Err(e);
            },
        };
        if inserts {
            match lookup(entries, "source") {
                None => Err(DecodeError::SourceMissing),
                Some(inner) => match AssuoSource::deserialize_toml(inner) {
                    Ok(source) => Ok(AssuoPatch::Insert { way, spot, source }),
                    Err(e) => Err(e),
                },
            }
        } else {
            match read_number(
                entries,
                "count",
                DecodeError::CountMissing,
                DecodeError::CountNotAnInteger,
            ) {
                Ok(count) => Ok(AssuoPatch::Remove { way, spot, count }),
                Err(e) => Err(e),
            }
        }
    }
}

/// Reads the list under `patch`.
fn read_patches(items: &Vec<TomlValue>) -> (r: Result<Vec<AssuoPatch<AssuoSource>>, DecodeError>)
    ensures
        r matches Ok(patches) ==> decoded_patches(items@) == Ok::<Seq<PatchView>, DecodeError>(
            patch_views(patches@),
        ),
        r matches Err(e) ==> decoded_patches(items@) == Err::<Seq<PatchView>, DecodeError>(e),
{
    let mut patches: Vec<AssuoPatch<AssuoSource>> = Vec::new();
    let mut i: usize = 0;
    proof {
        assert(items@.skip(0) =~= items@);
    }
    while i < items.len()
        invariant
            i <= items.len(),
            decoded_patches(items@) == match decoded_patches(items@.skip(i as int)) {
                Ok(rest) => Ok(patch_views(patches@) + rest),
                Err(e) => Err(e),
            },
        decreases items.len() - i,
    {
        proof {
            assert(items@.skip(i as int)[0] == items@[i as int]);
            assert(items@.skip(i as int).drop_first() =~= items@.skip(i + 1));
        }
        let ghost before = patch_views(patches@);
        match AssuoPatch::deserialize_toml(&items[i]) {
            Ok(patch) => {
                let ghost view = patch@;
                patches.push(patch);
                proof {
                    assert(patch_views(patches@) =~= before.push(view));
                    let rest = decoded_patches(items@.skip(i + 1));
                    if rest is Ok {
                        assert(before + (seq![view] + rest->Ok_0) =~= patch_views(patches@)
                            + rest->Ok_0);
                    }
                }
            },
            Err(e) => {
                return Err(e);
            },
        }
        i += 1;
    }
    proof {
        assert(items@.skip(i as int).len() == 0);
        assert(patch_views(patches@) + Seq::<PatchView>::empty() =~= patch_views(patches@));
    }
    Ok(patches)
}

impl AssuoFile<AssuoSource> {
    /// Reads a patch file out of a document.
    pub fn deserialize_toml(value: &TomlValue) -> (r: Result<AssuoFile<AssuoSource>, DecodeError>)
        ensures
            r matches Ok(file) ==> decoded_file(*value) == Ok::<FileView, DecodeError>(file@),
            r matches Err(e) ==> decoded_file(*value) == Err::<FileView, DecodeError>(e),
    {
        let entries = match value {
            TomlValue::Table(entries) => entries,
            _ => {
                return Err(DecodeError::FileNotATable);
            },
        };
        let source = match lookup(entries, "source") {
            None => {
                return Err(DecodeError::FileWithoutSource);
            },
            Some(inner) => match AssuoSource::deserialize_toml(inner) {
                Ok(source) => source,
                Err(e) => {
                    return Err(e);
                },
            },
        };
        match lookup(entries, "patch") {
            None => Ok(AssuoFile { source, patch: None }),
            Some(TomlValue::Array(items)) => match read_patches(items) {
                Ok(patches) => Ok(AssuoFile { source, patch: Some(patches) }),
                Err(e) => Err(e),
            },
            Some(_) => Err(DecodeError::PatchListNotAnArray),
        }
    }
}

} // verus!
