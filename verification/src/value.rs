//! A TOML value as the decoder reads it.
use vstd::prelude::*;
use crate::text::same_text;

verus! {

/// A TOML value. Strings, integers and booleans are held as they are; of a
/// float and of a date only the kind is kept, since nothing here reads them.
#[derive(Debug)]
pub enum TomlValue {
    String(String),
    Integer(i64),
    Float,
    Boolean(bool),
    Datetime,
    Array(Vec<TomlValue>),
    /// The entries of a table, each a key and its value.
    Table(Vec<(String, TomlValue)>),
}

/// The value that the first entry with the key `key` holds.
pub open spec fn table_get(entries: Seq<(String, TomlValue)>, key: Seq<char>) -> Option<TomlValue>
    decreases entries.len(),
{
    if entries.len() == 0 {
        None
    } else if entries[0].0@ == key {
        Some(entries[0].1)
    } else {
        table_get(entries.drop_first(), key)
    }
}

/// Looks `key` up among the entries of a table.
pub fn lookup<'a>(entries: &'a Vec<(String, TomlValue)>, key: &str) -> (found: Option<
    &'a TomlValue,
>)
    ensures
        found matches Some(value) ==> table_get(entries@, key@) == Some(*value),
        found is None ==> table_get(entries@, key@) is None,
{
    let mut i: usize = 0;
    proof {
        assert(entries@.skip(0) =~= entries@);
    }
    while i < entries.len()
        invariant
            i <= entries.len(),
            table_get(entries@, key@) == table_get(entries@.skip(i as int), key@),
        decreases entries.len() - i,
    {
        proof {
            assert(entries@.skip(i as int)[0] == entries@[i as int]);
            assert(entries@.skip(i as int).drop_first() =~= entries@.skip(i + 1));
        }
        if same_text(entries[i].0.as_str(), key) {
            return Some(&entries[i].1);
        }
        i += 1;
    }
    None
}

} // verus!
