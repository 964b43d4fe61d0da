//! Tests for reading patch files.

use assuo::decode::DecodeError;
use assuo::document::{starter_file, ParseError};
use assuo::models::{try_parse, AssuoFile, AssuoPatch, AssuoSource, Direction};
use assuo::patch::do_patch;
use assuo::value::{lookup, TomlValue};

fn helper<B: AsRef<[u8]>>(expected: B, source: &str) {
    let source = assuo::models::try_parse(source).unwrap();
    let result = do_patch(source).unwrap();
    assert_eq!(expected.as_ref(), result.as_slice());
}

fn document_error(source: &str) -> DecodeError {
    match try_parse(source) {
        Err(ParseError::Document(e)) => e,
        other => panic!("expected a document error, got {:?}", other),
    }
}

#[test]
fn readme_1() {
    helper(
        "Hello, World!",
        r#"
# The source specifies where we get a copy of the source bytes from.
# In our case, we will specify some `text`.
[source]
text = "Hello!"

# Now, we can apply a series of patches. In TOML, the double brackets
# ([[]]) mean an array, so we could add more of these sequentially in
# the file later.
[[patch]]

# We specify what we want to do. Here, we'll say that we want to insert
# some text. We'll make the source go from "Hello!" to "Hello, World!"
do = "insert"

# Way means the side of the spot that we insert on: right after the byte
# at the spot.
way = "post"

# The spot is where we want to insert at: the index, in the source bytes,
# of the byte that the text goes after.
#
# | H | e | l | l | o | ! |
#   0   1   2   3   4   5
spot = 4

# Now, we have to supply the source for where we get the bytes from.
# You may notice that this looks very similar to the [source] we have at
# the top, and you'd be absolutely right! Any valid [source] is a valid source
# here too.
source = { text = ", World" }
"#,
    )
}

#[test]
fn readme_2() {
    helper(
        vec![1, 2, 3, 4],
        r#"
[source]
bytes = [1, 2, 3, 4]
"#,
    )
}

#[test]
fn readme_3() {
    helper(
        "Hello!",
        r#"
[source]
text = "Hello!"
"#,
    )
}

#[test]
fn readme_8() {
    helper(
        ">ba<",
        r#"
[source]
text = "><"

[[patch]]
do = "insert"
way = "post"
spot = 0
source = { text = "a" }

[[patch]]
do = "insert"
way = "post"
spot = 0
source = { text = "b" }
"#,
    )
}

#[test]
fn readme_9() {
    helper(
        ">bac<",
        r#"
[source]
text = "><"

[[patch]]
do = "insert"
way = "post"
spot = 0
source = { text = "a" }

[[patch]]
do = "insert"
way = "post"
spot = 0
source = { text = "b" }

[[patch]]
do = "insert"
way = "pre"
spot = 1
source = { text = "c" }
"#,
    )
}

#[test]
fn init_prints_valid_assuo_toml() {
    assert!(try_parse(starter_file()).is_ok());
}

#[test]
fn starter_file_gives_hello_world() {
    assert_eq!(
        starter_file(),
        r#"[source]
text = "Hello!"

[[patch]]
do = "insert"
way = "post"
spot = 4
source = { text = ", World" }
"#
    );
    helper("Hello, World!", starter_file())
}

#[test]
fn cli_when_stdin_is_supplied_it_is_parsed() {
    helper(
        "stuff being piped from stdin!",
        r#"
[source]
text = "stuff being piped from stdin!"
"#,
    )
}

#[test]
fn parsed_file_holds_what_the_text_says() {
    let file = try_parse(
        r#"
[source]
file = "base.bin"

[[patch]]
do = "REMOVE"
way = "pre"
spot = 7
count = 3

[[patch]]
do = "Insert"
way = "post"
spot = 2
source = { assuo-url = "http://example.com/a.toml" }
"#,
    )
    .unwrap();
    match &file.source {
        AssuoSource::File(path) => assert_eq!(path, "base.bin"),
        other => panic!("{:?}", other),
    }
    let patches = file.patch.as_ref().unwrap();
    assert_eq!(patches.len(), 2);
    match &patches[0] {
        AssuoPatch::Remove { way, spot, count } => {
            assert_eq!(*way, Direction::Pre);
            assert_eq!(*spot, 7);
            assert_eq!(*count, 3);
        }
        other => panic!("{:?}", other),
    }
    match &patches[1] {
        AssuoPatch::Insert { way, spot, source } => {
            assert_eq!(*way, Direction::Post);
            assert_eq!(*spot, 2);
            match source {
                AssuoSource::AssuoUrl(url) => assert_eq!(url, "http://example.com/a.toml"),
                other => panic!("{:?}", other),
            }
        }
        other => panic!("{:?}", other),
    }
}

#[test]
fn every_kind_of_source_is_read() {
    let kinds = ["text", "url", "file", "assuo-url", "assuo-file"];
    for kind in kinds {
        let file = try_parse(&format!("[source]\n{} = \"x y\"\n", kind)).unwrap();
        assert!(file.patch.is_none());
        let matches = match (kind, &file.source) {
            ("text", AssuoSource::Text(v)) => v == "x y",
            ("url", AssuoSource::Url(v)) => v == "x y",
            ("file", AssuoSource::File(v)) => v == "x y",
            ("assuo-url", AssuoSource::AssuoUrl(v)) => v == "x y",
            ("assuo-file", AssuoSource::AssuoFile(v)) => v == "x y",
            _ => false,
        };
        assert!(matches, "{} gave {:?}", kind, file.source);
    }
}

#[test]
fn text_that_is_no_toml_is_a_syntax_error() {
    assert!(matches!(try_parse("[source\ntext = 1"), Err(ParseError::Syntax(_))));
    assert!(matches!(try_parse("a = 1\na = 2"), Err(ParseError::Syntax(_))));
    match try_parse("source = ") {
        Err(ParseError::Syntax(report)) => assert!(!report.is_empty()),
        other => panic!("{:?}", other),
    }
}

#[test]
fn file_errors() {
    assert_eq!(document_error(""), DecodeError::FileWithoutSource);
    assert_eq!(document_error("patch = []"), DecodeError::FileWithoutSource);
    assert_eq!(
        document_error("patch = 3\n[source]\ntext = \"a\""),
        DecodeError::PatchListNotAnArray
    );
    assert_eq!(
        document_error("patch = [1]\n[source]\ntext = \"a\""),
        DecodeError::PatchNotATable
    );
    assert_eq!(
        AssuoFile::deserialize_toml(&TomlValue::Integer(1)).unwrap_err(),
        DecodeError::FileNotATable
    );
}

#[test]
fn source_errors() {
    assert_eq!(document_error("source = 1"), DecodeError::SourceNotATable);
    assert_eq!(document_error("[source]"), DecodeError::SourceNotSingle);
    assert_eq!(
        document_error("[source]\ntext = \"a\"\nfile = \"b\""),
        DecodeError::SourceNotSingle
    );
    assert_eq!(document_error("[source]\ntext = [1]"), DecodeError::ArrayNotBytes);
    assert_eq!(document_error("[source]\nbytes = [1, 256]"), DecodeError::ByteOutOfRange);
    assert_eq!(document_error("[source]\nbytes = [-1]"), DecodeError::ByteOutOfRange);
    assert_eq!(document_error("[source]\nbytes = [\"a\"]"), DecodeError::ByteNotAnInteger);
    assert_eq!(document_error("[source]\nbytes = \"a\""), DecodeError::SourceKeyUnknown);
    assert_eq!(document_error("[source]\nText = \"a\""), DecodeError::SourceKeyUnknown);
    assert_eq!(document_error("[source]\ntext = 1"), DecodeError::SourceValueInvalid);
    assert_eq!(document_error("[source]\ntext = 1.5"), DecodeError::SourceValueInvalid);
    assert_eq!(document_error("[source]\ntext = true"), DecodeError::SourceValueInvalid);
}

fn patch_error(patch: &str) -> DecodeError {
    document_error(&format!("[source]\ntext = \"abc\"\n[[patch]]\n{}", patch))
}

#[test]
fn patch_errors() {
    assert_eq!(patch_error("way = \"pre\""), DecodeError::DoMissing);
    assert_eq!(patch_error("do = 1"), DecodeError::DoNotAString);
    assert_eq!(patch_error("do = \"replace\""), DecodeError::DoUnknown);
    assert_eq!(patch_error("do = \"insert\""), DecodeError::WayMissing);
    assert_eq!(patch_error("do = \"insert\"\nway = 1"), DecodeError::WayNotAString);
    assert_eq!(patch_error("do = \"insert\"\nway = \"PRE\""), DecodeError::WayUnknown);
    assert_eq!(patch_error("do = \"insert\"\nway = \"pre\""), DecodeError::SpotMissing);
    assert_eq!(
        patch_error("do = \"insert\"\nway = \"pre\"\nspot = \"1\""),
        DecodeError::SpotNotAnInteger
    );
    assert_eq!(
        patch_error("do = \"insert\"\nway = \"pre\"\nspot = 1"),
        DecodeError::SourceMissing
    );
    assert_eq!(
        patch_error("do = \"insert\"\nway = \"pre\"\nspot = 1\nsource = 2"),
        DecodeError::SourceNotATable
    );
    assert_eq!(
        patch_error("do = \"remove\"\nway = \"pre\"\nspot = 1"),
        DecodeError::CountMissing
    );
    assert_eq!(
        patch_error("do = \"remove\"\nway = \"pre\"\nspot = 1\ncount = \"2\""),
        DecodeError::CountNotAnInteger
    );
}

#[test]
fn every_error_has_its_words() {
    assert_eq!(DecodeError::PatchNotATable.message(), "didn't get a table as payload");
    assert_eq!(DecodeError::DoMissing.message(), "didn't get key 'do' with insert or remove");
    assert_eq!(DecodeError::SourceNotSingle.message(), "more than 1");
    assert_eq!(
        DecodeError::ByteOutOfRange.message(),
        "when converting byte to int, out of bounds [0, 255]"
    );
    assert_eq!(DecodeError::SourceNotATable.message(), "not table");
}

#[test]
fn a_negative_spot_wraps_and_is_out_of_bounds() {
    let file = try_parse(
        "[source]\ntext = \"abc\"\n[[patch]]\ndo = \"insert\"\nway = \"pre\"\nspot = -1\nsource = { text = \"x\" }",
    )
    .unwrap();
    match &file.patch.as_ref().unwrap()[0] {
        AssuoPatch::Insert { spot, .. } => assert_eq!(*spot, usize::MAX),
        other => panic!("{:?}", other),
    }
    assert_eq!(do_patch(file), Err(assuo::patch::PatchError::OutOfBounds));
}

#[test]
fn lookup_finds_the_first_entry_with_the_key() {
    let entries = vec![
        (String::from("a"), TomlValue::Integer(1)),
        (String::from("b"), TomlValue::Boolean(true)),
        (String::from("a"), TomlValue::Integer(2)),
    ];
    assert!(matches!(lookup(&entries, "a"), Some(TomlValue::Integer(1))));
    assert!(matches!(lookup(&entries, "b"), Some(TomlValue::Boolean(true))));
    assert!(lookup(&entries, "c").is_none());
    assert!(lookup(&entries, "A").is_none());
}

#[test]
fn decoding_a_value_written_by_hand() {
    let value = TomlValue::Table(vec![
        (String::from("do"), TomlValue::String(String::from("rEmOvE"))),
        (String::from("way"), TomlValue::String(String::from("post"))),
        (String::from("spot"), TomlValue::Integer(3)),
        (String::from("count"), TomlValue::Integer(0)),
        (String::from("source"), TomlValue::Datetime),
    ]);
    match AssuoPatch::deserialize_toml(&value).unwrap() {
        AssuoPatch::Remove { way, spot, count } => {
            assert_eq!(way, Direction::Post);
            assert_eq!(spot, 3);
            assert_eq!(count, 0);
        }
        other => panic!("{:?}", other),
    }
    let source = TomlValue::Table(vec![(
        String::from("bytes"),
        TomlValue::Array(vec![TomlValue::Integer(0), TomlValue::Integer(255)]),
    )]);
    match AssuoSource::deserialize_toml(&source).unwrap() {
        AssuoSource::Bytes(bytes) => assert_eq!(bytes, vec![0, 255]),
        other => panic!("{:?}", other),
    }
}
