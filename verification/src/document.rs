//! From the text of a patch file to the patch file, by way of the `toml`
//! crate.
use vstd::prelude::*;
use crate::decode::{decoded_file, DecodeError};
use crate::models::{AssuoFile, AssuoSource, FileView};
use crate::value::TomlValue;

verus! {

/// `toml::Value`: a document as the `toml` crate holds it. It is handed on
/// as it is; what it holds is read through [`lift`] alone.
#[verifier::external_type_specification]
#[verifier::external_body]
pub struct ExTomlDocument(toml::Value);

/// `toml::de::Error`: what the `toml` crate reports for a text that is no
/// TOML. It is handed on as it is, and put into words by [`describe`].
#[verifier::external_type_specification]
#[verifier::external_body]
pub struct ExTomlError(toml::de::Error);

/// The document that `toml::from_str` makes of a text; `None` where it reports
/// an error.
pub uninterp spec fn toml_document(text: Seq<char>) -> Option<toml::Value>;

/// What a `toml::Value` holds: its variant and fields, a table's entries in
/// the order in which the table hands them out.
pub uninterp spec fn toml_tree(document: toml::Value) -> TomlValue;

/// Calls `toml::from_str` for a `toml::Value`. Trusted: that the outcome
/// depends on the text alone.
#[verifier::external_body]
fn parse_toml(text: &str) -> (r: Result<toml::Value, toml::de::Error>)
    ensures
        r matches Ok(document) ==> toml_document(text@) == Some(document),
        r is Err ==> toml_document(text@) is None,
{
    toml::from_str::<toml::Value>(text)
}

/// Takes a `toml::Value` apart into a [`TomlValue`]: variant for variant, the
/// items of an array and the entries of a table as their `into_iter` hands
/// them out, each taken apart in turn. Of a float and of a date the payload is
/// dropped. Trusted: that the outcome depends on the value alone.
#[verifier::external_body]
fn lift(document: toml::Value) -> (tree: TomlValue)
    ensures
        tree == toml_tree(document),
{
    match document {
        toml::Value::String(text) => TomlValue::String(text),
        toml::Value::Integer(number) => TomlValue::Integer(number),
        toml::Value::Float(_) => TomlValue::Float,
        toml::Value::Boolean(flag) => TomlValue::Boolean(flag),
        toml::Value::Datetime(_) => TomlValue::Datetime,
        toml::Value::Array(items) => TomlValue::Array(items.into_iter().map(lift).collect()),
        toml::Value::Table(table) => TomlValue::Table(
            table.into_iter().map(|(key, item)| (key, lift(item))).collect(),
        ),
    }
}

/// Puts the report of the `toml` crate into words, by its `to_string`. Nothing
/// is claimed of the words.
#[verifier::external_body]
fn describe(error: &toml::de::Error) -> (words: String) {
    error.to_string()
}

/// Why a text is no patch file.
#[derive(Debug)]
pub enum ParseError {
    /// The text is no TOML. The field holds the parser's report.
    Syntax(String),
    /// The text is TOML, but the document is no patch file.
    Document(DecodeError),
}

/// The patch file that a text stands for: `None` where the text is no TOML,
/// else what the decoder makes of the document.
pub open spec fn parsed(text: Seq<char>) -> Option<Result<FileView, DecodeError>> {
    match toml_document(text) {
        Some(document) => Some(decoded_file(toml_tree(document))),
        None => None,
    }
}

/// Reads a patch file from the text of a TOML document.
pub fn try_parse(payload: &str) -> (r: Result<AssuoFile<AssuoSource>, ParseError>)
    ensures
        r matches Ok(file) ==> parsed(payload@) == Some(Ok::<FileView, DecodeError>(file@)),
        r matches Err(ParseError::Document(e)) ==> parsed(payload@) == Some(
            Err::<FileView, DecodeError>(e),
        ),
        r matches Err(ParseError::Syntax(_)) ==> parsed(payload@) is None,
{
    match parse_toml(payload) {
        Err(error) => Err(ParseError::Syntax(describe(&error))),
        Ok(document) => {
            let tree = lift(document);
            match AssuoFile::deserialize_toml(&tree) {
                Ok(file) => Ok(file),
                Err(e) => Err(ParseError::Document(e)),
            }
        },
    }
}

/// The text of a patch file to start from. It makes `Hello, World!` of
/// `Hello!`.
pub open spec fn starter_text() -> Seq<char> {
    "[source]\ntext = \"Hello!\"\n\n[[patch]]\ndo = \"insert\"\nway = \"post\"\nspot = 4\nsource = { text = \", World\" }\n"@
}

/// The text of a patch file to start from.
pub fn starter_file() -> (text: &'static str)
    ensures
        text@ == starter_text(),
{
    "[source]\ntext = \"Hello!\"\n\n[[patch]]\ndo = \"insert\"\nway = \"post\"\nspot = 4\nsource = { text = \", World\" }\n"
}

} // verus!
