//! What stands between a source and its bytes.
//!
//! The library reads no file and opens no connection. For a source that does
//! not carry its bytes it says what has to be read ([`AssuoSource::plan`]),
//! and it takes over again once the bytes are there ([`nested_file`]).
use vstd::prelude::*;
use vstd::utf8::*;
use crate::document::{parsed, try_parse};
use crate::models::{AssuoFile, AssuoSource, SourceView};

verus! {

/// Why a source did not give its bytes.
#[derive(Debug, Clone, Copy, PartialEq, Eq, Structural)]
pub enum ResolveError {
    /// The text of a `Url` or `AssuoUrl` is no URL.
    InvalidUrl,
    /// The request could not be sent, or was not answered.
    GetFailed,
    /// The answer broke off before its body was read.
    BodyFailed,
    /// What was read for a nested patch file is no UTF-8.
    InvalidString,
    /// What was read for a nested patch file is no patch file.
    InvalidConfig,
}

/// The kind of failure that a [`ResolveError`] is reported as.
#[derive(Debug, Clone, Copy, PartialEq, Eq, Structural)]
pub enum FailureKind {
    /// What was given or read is not what it has to be.
    InvalidData,
    /// The other side could not be reached.
    NotConnected,
}

impl ResolveError {
    /// The error in words.
    pub open spec fn text(self) -> Seq<char> {
        match self {
            ResolveError::InvalidUrl => "the url was invalid"@,
            ResolveError::GetFailed => "couldn't GET the url"@,
            ResolveError::BodyFailed => "couldn't read bytes from peer"@,
            ResolveError::InvalidString => "invalid string"@,
            ResolveError::InvalidConfig => "couldnt parse asuo config file"@,
        }
    }

    /// The error in words.
    pub fn message(self) -> (words: &'static str)
        ensures
            words@ == self.text(),
    {
        match self {
            ResolveError::InvalidUrl => "the url was invalid",
            ResolveError::GetFailed => "couldn't GET the url",
            ResolveError::BodyFailed => "couldn't read bytes from peer",
            ResolveError::InvalidString => "invalid string",
            ResolveError::InvalidConfig => "couldnt parse asuo config file",
        }
    }

    /// The kind of failure: a request that fails is `NotConnected`, all else
    /// is `InvalidData`.
    pub fn kind(self) -> (kind: FailureKind)
        ensures
            kind == if self == ResolveError::GetFailed || self == ResolveError::BodyFailed {
                FailureKind::NotConnected
            } else {
                FailureKind::InvalidData
            },
    {
        match self {
            ResolveError::GetFailed => FailureKind::NotConnected,
            ResolveError::BodyFailed => FailureKind::NotConnected,
            _ => FailureKind::InvalidData,
        }
    }
}

/// What to do about a source.
#[derive(Debug)]
pub enum Plan {
    /// Nothing has to be read: these are the bytes.
    Ready(Vec<u8>),
    /// The file at `path` has to be read.
    ReadFile { path: String, nested: bool },
    /// The body that a GET request to `url` is answered with has to be read.
    Download { url: String, nested: bool },
}

/// Whether `reqwest::Url::parse` accepts a text.
pub uninterp spec fn url_is_valid(text: Seq<char>) -> bool;

/// Calls `reqwest::Url::parse` and tells whether it gave a URL. Trusted: that
/// the outcome depends on the text alone.
#[verifier::external_body]
fn parses_as_url(text: &str) -> (r: bool)
    ensures
        r == url_is_valid(text@),
{
    reqwest::Url::parse(text).is_ok()
}

/// Calls `String::from_utf8`. Trusted: that it gives a string exactly for
/// bytes that are UTF-8, and that the string is made of those bytes.
#[verifier::external_body]
fn text_of(bytes: Vec<u8>) -> (r: Option<String>)
    ensures
        r is Some <==> valid_utf8(bytes@),
        r matches Some(text) ==> encode_utf8(text@) == bytes@,
{
    String::from_utf8(bytes).ok()
}

/// The text of a source that is meant as a URL.
pub open spec fn source_url(source: SourceView) -> Option<Seq<char>> {
    match source {
        SourceView::Url(text) => Some(text),
        SourceView::AssuoUrl(text) => Some(text),
        _ => None,
    }
}

/// Whether `r` is what is to be done about `source`, where `url_ok` says
/// whether its text is a URL (looked at for `Url` and `AssuoUrl` only).
///
/// An inline source is ready. A file is read, a URL is downloaded if it is
/// one. `nested` says what the bytes that were read are: the bytes of the
/// source (`false`), or the text of a patch file whose result is the bytes of
/// the source (`true`).
pub open spec fn planned(source: SourceView, url_ok: bool, r: Result<Plan, ResolveError>) -> bool {
    match source {
        SourceView::Bytes(bytes) => r matches Ok(Plan::Ready(out)) && out@ == bytes,
        SourceView::Text(text) => r matches Ok(Plan::Ready(out)) && out@ == encode_utf8(text),
        SourceView::File(name) => r matches Ok(Plan::ReadFile { path, nested }) && path@ == name
            && !nested,
        SourceView::AssuoFile(name) => r matches Ok(Plan::ReadFile { path, nested }) && path@
            == name && nested,
        SourceView::Url(text) => if url_ok {
            r matches Ok(Plan::Download { url, nested }) && url@ == text && !nested
        } else {
            r == Err::<Plan, ResolveError>(ResolveError::InvalidUrl)
        },
        SourceView::AssuoUrl(text) => if url_ok {
            r matches Ok(Plan::Download { url, nested }) && url@ == text && nested
        } else {
            r == Err::<Plan, ResolveError>(ResolveError::InvalidUrl)
        },
    }
}

/// What to do about a source, given whether its text is a URL.
pub fn plan_for(source: AssuoSource, url_ok: bool) -> (r: Result<Plan, ResolveError>)
    ensures
        planned(source@, url_ok, r),
{
    match source {
        AssuoSource::File(path) => Ok(Plan::ReadFile { path, nested: false }),
        AssuoSource::AssuoFile(path) => Ok(Plan::ReadFile { path, nested: true }),
        AssuoSource::Url(url) => if url_ok {
            Ok(Plan::Download { url, nested: false })
        } else {
            Err(ResolveError::InvalidUrl)
        },
        AssuoSource::AssuoUrl(url) => if url_ok {
            Ok(Plan::Download { url, nested: true })
        } else {
            Err(ResolveError::InvalidUrl)
        },
        inline => Ok(Plan::Ready(inline.resolve())),
    }
}

impl AssuoSource {
    /// What to do about the source: as [`plan_for`] says, with the text of a
    /// `Url` or `AssuoUrl` put to `reqwest::Url::parse`.
    pub fn plan(self) -> (r: Result<Plan, ResolveError>)
        ensures
            planned(
                self@,
                match source_url(self@) {
                    Some(text) => url_is_valid(text),
                    None => true,
                },
                r,
            ),
    {
        let url_ok = match &self {
            AssuoSource::Url(url) => parses_as_url(url.as_str()),
            AssuoSource::AssuoUrl(url) => parses_as_url(url.as_str()),
            _ => true,
        };
        plan_for(self, url_ok)
    }
}

/// The patch file that was read for a nested source.
///
/// Fails with `InvalidString` where the bytes are no UTF-8, and with
/// `InvalidConfig` where they are, but the text is no patch file.
pub fn nested_file(bytes: Vec<u8>) -> (r: Result<AssuoFile<AssuoSource>, ResolveError>)
    ensures
        !valid_utf8(bytes@) ==> r == Err::<AssuoFile<AssuoSource>, ResolveError>(
            ResolveError::InvalidString,
        ),
        valid_utf8(bytes@) ==> match parsed(decode_utf8(bytes@)) {
            Some(Ok(file)) => r matches Ok(read) && read@ == file,
            _ => r == Err::<AssuoFile<AssuoSource>, ResolveError>(ResolveError::InvalidConfig),
        },
{
    match text_of(bytes) {
        None => Err(ResolveError::InvalidString),
        Some(text) => {
            proof {
                encode_utf8_decode_utf8(text@);
            }
            match try_parse(text.as_str()) {
                Ok(file) => Ok(file),
                Err(_) => Err(ResolveError::InvalidConfig),
            }
        },
    }
}

} // verus!
