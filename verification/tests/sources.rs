//! Tests for sources: what they hold, what has to be read for them, and what
//! is made of what was read.

use assuo::decode::DecodeError;
use assuo::fetch::{nested_file, plan_for, FailureKind, Plan, ResolveError};
use assuo::models::{AssuoFile, AssuoModSpot, AssuoPatch, AssuoSource, Direction};
use assuo::patch::do_patch;
use assuo::text::{eq_ignore_ascii_case, same_text};
use assuo::value::TomlValue;

#[test]
fn inline_sources_resolve_to_their_bytes() {
    assert_eq!(AssuoSource::Bytes(vec![1, 2, 255]).resolve(), vec![1, 2, 255]);
    assert_eq!(AssuoSource::Bytes(vec![]).resolve(), Vec::<u8>::new());
    assert_eq!(AssuoSource::Text(String::from("Hello!")).resolve(), b"Hello!".to_vec());
    assert_eq!(
        AssuoSource::Text(String::from("h\u{e9}\u{20ac}\u{1f600}")).resolve(),
        vec![0x68, 0xc3, 0xa9, 0xe2, 0x82, 0xac, 0xf0, 0x9f, 0x98, 0x80]
    );
}

#[test]
fn only_bytes_and_text_carry_their_bytes() {
    assert!(AssuoSource::Bytes(vec![]).carries_bytes());
    assert!(AssuoSource::Text(String::new()).carries_bytes());
    assert!(!AssuoSource::File(String::from("a")).carries_bytes());
    assert!(!AssuoSource::Url(String::from("a")).carries_bytes());
    assert!(!AssuoSource::AssuoFile(String::from("a")).carries_bytes());
    assert!(!AssuoSource::AssuoUrl(String::from("a")).carries_bytes());

    let insert = |source| AssuoPatch::Insert { way: Direction::Pre, spot: 0, source };
    assert!(insert(AssuoSource::Text(String::new())).carries_bytes());
    assert!(!insert(AssuoSource::File(String::new())).carries_bytes());
    let remove: AssuoPatch = AssuoPatch::Remove { way: Direction::Pre, spot: 0, count: 0 };
    assert!(remove.carries_bytes());

    let file = |source, patch| AssuoFile { source, patch };
    assert!(file(AssuoSource::Bytes(vec![]), None).carries_bytes());
    assert!(file(AssuoSource::Bytes(vec![]), Some(vec![])).carries_bytes());
    assert!(!file(AssuoSource::Url(String::new()), Some(vec![])).carries_bytes());
    assert!(file(
        AssuoSource::Bytes(vec![]),
        Some(vec![remove, insert(AssuoSource::Bytes(vec![1]))])
    )
    .carries_bytes());
    assert!(!file(
        AssuoSource::Bytes(vec![]),
        Some(vec![insert(AssuoSource::Bytes(vec![1])), insert(AssuoSource::AssuoUrl(String::new()))])
    )
    .carries_bytes());
}

#[test]
fn resolving_a_patch_keeps_its_numbers() {
    let patch = AssuoPatch::Insert {
        way: Direction::Post,
        spot: 7,
        source: AssuoSource::Text(String::from("hi")),
    };
    match patch.resolve() {
        AssuoPatch::Insert { way, spot, source } => {
            assert_eq!(way, Direction::Post);
            assert_eq!(spot, 7);
            assert_eq!(source, b"hi".to_vec());
        }
        other => panic!("{:?}", other),
    }
    let patch: AssuoPatch = AssuoPatch::Remove { way: Direction::Pre, spot: 3, count: 2 };
    match patch.resolve() {
        AssuoPatch::Remove { way, spot, count } => {
            assert_eq!(way, Direction::Pre);
            assert_eq!(spot, 3);
            assert_eq!(count, 2);
        }
        other => panic!("{:?}", other),
    }
}

#[test]
fn resolving_a_file_keeps_its_patches() {
    let file = AssuoFile {
        source: AssuoSource::Text(String::from("abc")),
        patch: Some(vec![AssuoPatch::Insert {
            way: Direction::Pre,
            spot: 1,
            source: AssuoSource::File(String::from("later.txt")),
        }]),
    };
    let resolved = file.resolve();
    assert_eq!(resolved.source, b"abc".to_vec());
    let patches = resolved.patch.unwrap();
    assert_eq!(patches.len(), 1);
    assert!(matches!(
        &patches[0],
        AssuoPatch::Insert { way: Direction::Pre, spot: 1, source: AssuoSource::File(path) }
            if path == "later.txt"
    ));
}

#[test]
fn plan_for_inline_sources_is_their_bytes() {
    for url_ok in [true, false] {
        assert!(matches!(
            plan_for(AssuoSource::Bytes(vec![3, 4]), url_ok),
            Ok(Plan::Ready(bytes)) if bytes == vec![3, 4]
        ));
        assert!(matches!(
            plan_for(AssuoSource::Text(String::from("ab")), url_ok),
            Ok(Plan::Ready(bytes)) if bytes == b"ab".to_vec()
        ));
    }
}

#[test]
fn plan_for_files_is_to_read_them() {
    for url_ok in [true, false] {
        assert!(matches!(
            plan_for(AssuoSource::File(String::from("a.bin")), url_ok),
            Ok(Plan::ReadFile { path, nested: false }) if path == "a.bin"
        ));
        assert!(matches!(
            plan_for(AssuoSource::AssuoFile(String::from("a.toml")), url_ok),
            Ok(Plan::ReadFile { path, nested: true }) if path == "a.toml"
        ));
    }
}

#[test]
fn plan_for_urls_is_to_download_them_if_they_are_urls() {
    assert!(matches!(
        plan_for(AssuoSource::Url(String::from("http://h/a")), true),
        Ok(Plan::Download { url, nested: false }) if url == "http://h/a"
    ));
    assert!(matches!(
        plan_for(AssuoSource::AssuoUrl(String::from("http://h/b")), true),
        Ok(Plan::Download { url, nested: true }) if url == "http://h/b"
    ));
    assert!(matches!(
        plan_for(AssuoSource::Url(String::from("http://h/a")), false),
        Err(ResolveError::InvalidUrl)
    ));
    assert!(matches!(
        plan_for(AssuoSource::AssuoUrl(String::from("http://h/b")), false),
        Err(ResolveError::InvalidUrl)
    ));
}

#[test]
fn plan_puts_urls_to_the_parser() {
    assert!(matches!(
        AssuoSource::Url(String::from("http://example.com/data.bin")).plan(),
        Ok(Plan::Download { url, nested: false }) if url == "http://example.com/data.bin"
    ));
    assert!(matches!(
        AssuoSource::AssuoUrl(String::from("https://example.com:8443/a/b.toml?x=1")).plan(),
        Ok(Plan::Download { url, nested: true }) if url == "https://example.com:8443/a/b.toml?x=1"
    ));
    assert!(matches!(
        AssuoSource::Url(String::from("not a url")).plan(),
        Err(ResolveError::InvalidUrl)
    ));
    assert!(matches!(AssuoSource::AssuoUrl(String::new()).plan(), Err(ResolveError::InvalidUrl)));
    assert!(matches!(
        AssuoSource::Url(String::from("/only/a/path")).plan(),
        Err(ResolveError::InvalidUrl)
    ));
    assert!(matches!(
        AssuoSource::File(String::from("not a url")).plan(),
        Ok(Plan::ReadFile { path, nested: false }) if path == "not a url"
    ));
    assert!(matches!(
        AssuoSource::Text(String::from("not a url")).plan(),
        Ok(Plan::Ready(bytes)) if bytes == b"not a url".to_vec()
    ));
}

#[test]
fn nested_file_reads_what_was_fetched() {
    let file = nested_file(b"[source]\ntext = \"Hello, World!\"\n".to_vec()).unwrap();
    assert_eq!(do_patch(file), Ok(b"Hello, World!".to_vec()));

    let text = "[source]\ntext = \"gr\u{fc}n\"\n[[patch]]\ndo = \"remove\"\nway = \"post\"\nspot = 0\ncount = 1\n";
    let file = nested_file(text.as_bytes().to_vec()).unwrap();
    assert_eq!(do_patch(file), Ok("g\u{fc}n".as_bytes().to_vec()));
}

#[test]
fn nested_file_refuses_what_is_no_text() {
    assert!(matches!(nested_file(vec![0xff, 0xfe]), Err(ResolveError::InvalidString)));
    assert!(matches!(nested_file(vec![0xc3]), Err(ResolveError::InvalidString)));
    assert!(matches!(nested_file(vec![0xed, 0xa0, 0x80]), Err(ResolveError::InvalidString)));
    assert!(matches!(nested_file(vec![0xc0, 0x80]), Err(ResolveError::InvalidString)));
}

#[test]
fn nested_file_refuses_what_is_no_patch_file() {
    assert!(matches!(nested_file(b"[source".to_vec()), Err(ResolveError::InvalidConfig)));
    assert!(matches!(nested_file(b"".to_vec()), Err(ResolveError::InvalidConfig)));
    assert!(matches!(
        nested_file(b"[source]\ntext = 1".to_vec()),
        Err(ResolveError::InvalidConfig)
    ));
}

#[test]
fn resolve_errors_in_words() {
    assert_eq!(ResolveError::InvalidUrl.message(), "the url was invalid");
    assert_eq!(ResolveError::GetFailed.message(), "couldn't GET the url");
    assert_eq!(ResolveError::BodyFailed.message(), "couldn't read bytes from peer");
    assert_eq!(ResolveError::InvalidString.message(), "invalid string");
    assert_eq!(ResolveError::InvalidConfig.message(), "couldnt parse asuo config file");
    assert_eq!(ResolveError::InvalidUrl.kind(), FailureKind::InvalidData);
    assert_eq!(ResolveError::GetFailed.kind(), FailureKind::NotConnected);
    assert_eq!(ResolveError::BodyFailed.kind(), FailureKind::NotConnected);
    assert_eq!(ResolveError::InvalidString.kind(), FailureKind::InvalidData);
    assert_eq!(ResolveError::InvalidConfig.kind(), FailureKind::InvalidData);
}

#[test]
fn one_word_kinds_of_edit() {
    let word = |text: &str| TomlValue::String(String::from(text));
    assert_eq!(AssuoModSpot::deserialize_toml(&word("post insert")), Ok(AssuoModSpot::PostInsert));
    assert_eq!(AssuoModSpot::deserialize_toml(&word("post ins")), Ok(AssuoModSpot::PostInsert));
    assert_eq!(
        AssuoModSpot::deserialize_toml(&word("pre insert")),
        Err(DecodeError::ModifyUnknown)
    );
    assert_eq!(
        AssuoModSpot::deserialize_toml(&word("Post Insert")),
        Err(DecodeError::ModifyUnknown)
    );
    assert_eq!(
        AssuoModSpot::deserialize_toml(&TomlValue::Integer(1)),
        Err(DecodeError::ModifyNotAString)
    );
    assert_eq!(DecodeError::ModifyUnknown.message(), "didnt get right modify type");
    assert_eq!(DecodeError::ModifyNotAString.message(), "didnt get a string as payload");

    let patch = AssuoModSpot::PostInsert.at(4, AssuoSource::Text(String::from(", World")));
    let file = AssuoFile { source: AssuoSource::Text(String::from("Hello!")), patch: Some(vec![patch]) };
    assert_eq!(do_patch(file), Ok(b"Hello, World!".to_vec()));
}

#[test]
fn same_text_compares_whole_strings() {
    assert!(same_text("", ""));
    assert!(same_text("bytes", "bytes"));
    assert!(!same_text("bytes", "byte"));
    assert!(!same_text("bytes", "Bytes"));
    assert!(!same_text("a", "b"));
    assert!(same_text("gr\u{fc}n", "gr\u{fc}n"));
    assert!(!same_text("gr\u{fc}n", "grun"));
}

#[test]
fn eq_ignore_ascii_case_folds_ascii_letters_only() {
    assert!(eq_ignore_ascii_case("insert", "INSERT"));
    assert!(eq_ignore_ascii_case("InSeRt", "INSERT"));
    assert!(eq_ignore_ascii_case("INSERT", "INSERT"));
    assert!(eq_ignore_ascii_case("", ""));
    assert!(eq_ignore_ascii_case("az AZ 09", "AZ az 09"));
    assert!(!eq_ignore_ascii_case("insert", "INSERTS"));
    assert!(!eq_ignore_ascii_case("remove", "INSERT"));
    assert!(!eq_ignore_ascii_case("@", "`"));
    assert!(!eq_ignore_ascii_case("[", "{"));
    assert!(!eq_ignore_ascii_case("\u{e4}", "\u{c4}"));
    assert!(eq_ignore_ascii_case("\u{e4}b", "\u{e4}B"));
}
