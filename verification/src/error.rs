//! The errors of the downloader and their messages.

use vstd::prelude::*;

use crate::number::{decimal, decimal_text};

verus! {

/// What can go wrong. `Network`, `Io`, `Json`, `Toml` and `Glob` carry the text of
/// the error that was met outside.
#[allow(inconsistent_fields)]
#[derive(Debug)]
pub enum MgetError {
    Network(String),
    Io(String),
    Json(String),
    Toml(String),
    Glob(String),
    NoAvailableSource,
    AmbiguousModelMapping { input: String, candidates: String },
    ModelMappingNotFound(String),
    EmptyRepository(String),
    NotEnoughSpace { path: String, needed: u64, available: u64 },
    ChecksumMismatch { path: String, expected: String, actual: String },
    SizeMismatch { path: String, expected: u64, actual: u64 },
    DownloadFailed(String),
    SymlinkConflict(String),
    Message(String),
}

/// An error with its texts as character sequences.
#[allow(inconsistent_fields)]
pub ghost enum Failure {
    Network(Seq<char>),
    Io(Seq<char>),
    Json(Seq<char>),
    Toml(Seq<char>),
    Glob(Seq<char>),
    NoAvailableSource,
    AmbiguousModelMapping { input: Seq<char>, candidates: Seq<char> },
    ModelMappingNotFound(Seq<char>),
    EmptyRepository(Seq<char>),
    NotEnoughSpace { path: Seq<char>, needed: u64, available: u64 },
    ChecksumMismatch { path: Seq<char>, expected: Seq<char>, actual: Seq<char> },
    SizeMismatch { path: Seq<char>, expected: u64, actual: u64 },
    DownloadFailed(Seq<char>),
    SymlinkConflict(Seq<char>),
    Message(Seq<char>),
}

impl View for MgetError {
    type V = Failure;

    open spec fn view(&self) -> Failure {
        match *self {
            MgetError::Network(text) => Failure::Network(text@),
            MgetError::Io(text) => Failure::Io(text@),
            MgetError::Json(text) => Failure::Json(text@),
            MgetError::Toml(text) => Failure::Toml(text@),
            MgetError::Glob(text) => Failure::Glob(text@),
            MgetError::NoAvailableSource => Failure::NoAvailableSource,
            MgetError::AmbiguousModelMapping { input, candidates } => {
                Failure::AmbiguousModelMapping { input: input@, candidates: candidates@ }
            },
            MgetError::ModelMappingNotFound(id) => Failure::ModelMappingNotFound(id@),
            MgetError::EmptyRepository(id) => Failure::EmptyRepository(id@),
            MgetError::NotEnoughSpace { path, needed, available } => {
                Failure::NotEnoughSpace { path: path@, needed, available }
            },
            MgetError::ChecksumMismatch { path, expected, actual } => {
                Failure::ChecksumMismatch { path: path@, expected: expected@, actual: actual@ }
            },
            MgetError::SizeMismatch { path, expected, actual } => {
                Failure::SizeMismatch { path: path@, expected, actual }
            },
            MgetError::DownloadFailed(text) => Failure::DownloadFailed(text@),
            MgetError::SymlinkConflict(path) => Failure::SymlinkConflict(path@),
            MgetError::Message(text) => Failure::Message(text@),
        }
    }
}

impl Failure {
    /// The message shown to the user.
    pub open spec fn text(self) -> Seq<char> {
        match self {
            Failure::Network(text) => "network request failed: "@ + text,
            Failure::Io(text) => "I/O error: "@ + text,
            Failure::Json(text) => "failed to parse response: "@ + text,
            Failure::Toml(text) => "failed to parse config file: "@ + text,
            Failure::Glob(text) => "invalid glob pattern: "@ + text,
            Failure::NoAvailableSource => "no available source after network probing"@,
            Failure::AmbiguousModelMapping { input, candidates } => {
                "model mapping is ambiguous for '"@ + input
                    + "'. Pass --modelscope-id or rerun with --interactive in a TTY. Candidates: "@
                    + candidates
            },
            Failure::ModelMappingNotFound(id) => {
                "no ModelScope mapping found for '"@ + id
                    + "'. Pass --modelscope-id to choose the target repository."@
            },
            Failure::EmptyRepository(id) => {
                "source returned no downloadable files for '"@ + id + "'"@
            },
            Failure::NotEnoughSpace { path, needed, available } => {
                "not enough free disk space at "@ + path + ": need "@ + decimal(needed as nat)
                    + " bytes, available "@ + decimal(available as nat) + " bytes"@
            },
            Failure::ChecksumMismatch { path, expected, actual } => {
                "checksum mismatch for "@ + path + ": expected "@ + expected + ", got "@ + actual
            },
            Failure::SizeMismatch { path, expected, actual } => {
                "size mismatch for "@ + path + ": expected "@ + decimal(expected as nat)
                    + " bytes, got "@ + decimal(actual as nat) + " bytes"@
            },
            Failure::DownloadFailed(text) => "download failed after retries: "@ + text,
            Failure::SymlinkConflict(path) => {
                "symlink target already exists and points elsewhere: "@ + path
            },
            Failure::Message(text) => text,
        }
    }
}

/// Two texts one after the other.
fn prefixed(prefix: &str, text: &str) -> (out: String)
    ensures
        out@ == prefix@ + text@,
{
    let mut out = prefix.to_owned();
    out.append(text);
    out
}

impl MgetError {
    /// The message shown to the user.
    pub fn message(&self) -> (out: String)
        ensures
            out@ == self@.text(),
    {
        match self {
            MgetError::Network(text) => prefixed("network request failed: ", text.as_str()),
            MgetError::Io(text) => prefixed("I/O error: ", text.as_str()),
            MgetError::Json(text) => prefixed("failed to parse response: ", text.as_str()),
            MgetError::Toml(text) => prefixed("failed to parse config file: ", text.as_str()),
            MgetError::Glob(text) => prefixed("invalid glob pattern: ", text.as_str()),
            MgetError::NoAvailableSource => "no available source after network probing".to_owned(),
            MgetError::AmbiguousModelMapping { input, candidates } => {
                let mut out = prefixed("model mapping is ambiguous for '", input.as_str());
                out.append(
                    "'. Pass --modelscope-id or rerun with --interactive in a TTY. Candidates: ",
                );
                out.append(candidates.as_str());
                out
            },
            MgetError::ModelMappingNotFound(id) => {
                let mut out = prefixed("no ModelScope mapping found for '", id.as_str());
                out.append("'. Pass --modelscope-id to choose the target repository.");
                out
            },
            MgetError::EmptyRepository(id) => {
                let mut out = prefixed("source returned no downloadable files for '", id.as_str());
                out.append("'");
                out
            },
            MgetError::NotEnoughSpace { path, needed, available } => {
                let mut out = prefixed("not enough free disk space at ", path.as_str());
                out.append(": need ");
                out.append(decimal_text(*needed as u128).as_str());
                out.append(" bytes, available ");
                out.append(decimal_text(*available as u128).as_str());
                out.append(" bytes");
                out
            },
            MgetError::ChecksumMismatch { path, expected, actual } => {
                let mut out = prefixed("checksum mismatch for ", path.as_str());
                out.append(": expected ");
                out.append(expected.as_str());
                out.append(", got ");
                out.append(actual.as_str());
                out
            },
            MgetError::SizeMismatch { path, expected, actual } => {
                let mut out = prefixed("size mismatch for ", path.as_str());
                out.append(": expected ");
                out.append(decimal_text(*expected as u128).as_str());
                out.append(" bytes, got ");
                out.append(decimal_text(*actual as u128).as_str());
                out.append(" bytes");
                out
            },
            MgetError::DownloadFailed(text) => {
                prefixed("download failed after retries: ", text.as_str())
            },
            MgetError::SymlinkConflict(path) => prefixed(
                "symlink target already exists and points elsewhere: ",
                path.as_str(),
            ),
            MgetError::Message(text) => text.clone(),
        }
    }
}

/// A message ends in the text that it was made for, whatever that is, behind words that do not
/// depend on it.
pub proof fn messages_end_in_their_text(text: Seq<char>)
    ensures
        Failure::Network(text).text() == Failure::Network(Seq::empty()).text() + text,
        Failure::Io(text).text() == Failure::Io(Seq::empty()).text() + text,
        Failure::Json(text).text() == Failure::Json(Seq::empty()).text() + text,
        Failure::Toml(text).text() == Failure::Toml(Seq::empty()).text() + text,
        Failure::Glob(text).text() == Failure::Glob(Seq::empty()).text() + text,
        Failure::DownloadFailed(text).text() == Failure::DownloadFailed(Seq::empty()).text() + text,
        Failure::SymlinkConflict(text).text() == Failure::SymlinkConflict(Seq::empty()).text()
            + text,
        Failure::Message(text).text() == text,
{
    let none = Seq::<char>::empty();
    assert(Failure::Network(none).text() + text =~= Failure::Network(text).text());
    assert(Failure::Io(none).text() + text =~= Failure::Io(text).text());
    assert(Failure::Json(none).text() + text =~= Failure::Json(text).text());
    assert(Failure::Toml(none).text() + text =~= Failure::Toml(text).text());
    assert(Failure::Glob(none).text() + text =~= Failure::Glob(text).text());
    assert(Failure::DownloadFailed(none).text() + text =~= Failure::DownloadFailed(text).text());
    assert(Failure::SymlinkConflict(none).text() + text =~= Failure::SymlinkConflict(text).text());
}

/// A message of several parts names each of them in its place.
pub proof fn messages_name_their_parts(
    path: Seq<char>,
    a: Seq<char>,
    b: Seq<char>,
    m: u64,
    n: u64,
)
    ensures
        (Failure::NotEnoughSpace { path, needed: m, available: n }).text()
            == "not enough free disk space at "@ + path + ": need "@ + decimal(m as nat)
            + " bytes, available "@ + decimal(n as nat) + " bytes"@,
        (Failure::ChecksumMismatch { path, expected: a, actual: b }).text()
            == "checksum mismatch for "@ + path + ": expected "@ + a + ", got "@ + b,
        (Failure::SizeMismatch { path, expected: m, actual: n }).text() == "size mismatch for "@
            + path + ": expected "@ + decimal(m as nat) + " bytes, got "@ + decimal(n as nat)
            + " bytes"@,
        (Failure::AmbiguousModelMapping { input: a, candidates: b }).text() == (
        Failure::AmbiguousModelMapping { input: a, candidates: Seq::empty() }).text() + b,
        Failure::EmptyRepository(a).text() == "source returned no downloadable files for '"@ + a
            + "'"@,
{
    let none = Seq::<char>::empty();
    assert((Failure::AmbiguousModelMapping { input: a, candidates: none }).text() + b =~= (
    Failure::AmbiguousModelMapping { input: a, candidates: b }).text());
}

} // verus!
