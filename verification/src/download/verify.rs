//! The integrity check of downloaded files.

use vstd::prelude::*;

use crate::download::checksum::{checksum_text, md5_digest, sha256_digest, Algorithm};
use crate::encoding::{hex_encoded, hex_texts_tell_bytes_apart};
use crate::error::{Failure, MgetError};
use crate::source::{FileView, RemoteFile};
use crate::text::{ascii_lower, eq_ignore_case, same_ignoring_case};

verus! {

/// What is measured to check a file.
#[derive(Debug, Clone, Copy, PartialEq, Eq, Structural)]
pub enum Measure {
    Checksum(Algorithm),
    Size,
    Nothing,
}

/// The best measure that the source offers: a SHA-256 checksum, an MD5 checksum, the
/// size, or nothing.
pub open spec fn best_measure(file: FileView) -> Measure {
    if file.sha256 is Some {
        Measure::Checksum(Algorithm::Sha256)
    } else if file.md5 is Some {
        Measure::Checksum(Algorithm::Md5)
    } else if file.size is Some {
        Measure::Size
    } else {
        Measure::Nothing
    }
}

/// What was measured of a file on disk.
#[derive(Debug)]
pub enum Measured {
    Checksum(String),
    Size(u64),
    Nothing,
}

/// What was measured, with its text as a character sequence.
pub ghost enum MeasuredView {
    Checksum(Seq<char>),
    Size(u64),
    Nothing,
}

impl View for Measured {
    type V = MeasuredView;

    open spec fn view(&self) -> MeasuredView {
        match *self {
            Measured::Checksum(text) => MeasuredView::Checksum(text@),
            Measured::Size(size) => MeasuredView::Size(size),
            Measured::Nothing => MeasuredView::Nothing,
        }
    }
}

/// Whether a measured value is of the kind that was to be measured.
pub open spec fn is_answer(measure: Measure, measured: MeasuredView) -> bool {
    match measure {
        Measure::Checksum(_) => measured is Checksum,
        Measure::Size => measured is Size,
        Measure::Nothing => measured is Nothing,
    }
}

/// The checksum that the source tells of a file.
pub open spec fn told_checksum(file: FileView) -> Seq<char> {
    match file.sha256 {
        Some(sum) => sum,
        None => file.md5->0,
    }
}

/// What a measured value says of a file at `target`: nothing, or how it differs from
/// what the source tells. The case of the letters of a checksum does not matter.
pub open spec fn difference(file: FileView, target: Seq<char>, measured: MeasuredView) -> Option<
    Failure,
> {
    match measured {
        MeasuredView::Checksum(actual) => if same_ignoring_case(actual, told_checksum(file)) {
            None
        } else {
            Some(
                Failure::ChecksumMismatch { path: target, expected: told_checksum(file), actual },
            )
        },
        MeasuredView::Size(actual) => if actual == file.size->0 {
            None
        } else {
            Some(Failure::SizeMismatch { path: target, expected: file.size->0, actual })
        },
        MeasuredView::Nothing => None,
    }
}

/// The best measure that the source offers.
pub fn measure_for(file: &RemoteFile) -> (r: Measure)
    ensures
        r == best_measure(file@),
{
    if file.sha256.is_some() {
        Measure::Checksum(Algorithm::Sha256)
    } else if file.md5.is_some() {
        Measure::Checksum(Algorithm::Md5)
    } else if file.size.is_some() {
        Measure::Size
    } else {
        Measure::Nothing
    }
}

/// Compares the checksum of the file at `target` with the expected one.
pub fn compare_checksum(target: &str, expected: &str, actual: String) -> (r: Result<(), MgetError>)
    ensures
        match r {
            Ok(_) => same_ignoring_case(actual@, expected@),
            Err(error) => {
                &&& !same_ignoring_case(actual@, expected@)
                &&& error@ == (Failure::ChecksumMismatch {
                    path: target@,
                    expected: expected@,
                    actual: actual@,
                })
            },
        },
{
    if eq_ignore_case(actual.as_str(), expected) {
        Ok(())
    } else {
        Err(
            MgetError::ChecksumMismatch {
                path: target.to_owned(),
                expected: expected.to_owned(),
                actual,
            },
        )
    }
}

/// Checks the file at `target` by what was measured of it.
pub fn verify_file(file: &RemoteFile, target: &str, measured: Measured) -> (r: Result<
    (),
    MgetError,
>)
    requires
        is_answer(best_measure(file@), measured@),
    ensures
        match r {
            Ok(_) => difference(file@, target@, measured@) is None,
            Err(error) => difference(file@, target@, measured@) == Some(error@),
        },
{
    match measured {
        Measured::Checksum(actual) => {
            if let Some(expected) = &file.sha256 {
                compare_checksum(target, expected.as_str(), actual)
            } else if let Some(expected) = &file.md5 {
                compare_checksum(target, expected.as_str(), actual)
            } else {
                Ok(())
            }
        },
        Measured::Size(actual) => {
            if let Some(expected) = file.size {
                if actual != expected {
                    return Err(
                        MgetError::SizeMismatch { path: target.to_owned(), expected, actual },
                    );
                }
            }
            Ok(())
        },
        Measured::Nothing => Ok(()),
    }
}

/// The warning for a file that cannot be checked.
pub fn unchecked_warning(path: &str) -> (out: String)
    ensures
        out@ == "warning: no checksum or size metadata for "@ + path@
            + "; skipped integrity check"@,
{
    let mut out = "warning: no checksum or size metadata for ".to_owned();
    out.append(path);
    out.append("; skipped integrity check");
    out
}

/// The warning for a file on disk that does not pass the check.
pub fn corrupt_target_warning(path: &str) -> (out: String)
    ensures
        out@ == "warning: existing target failed integrity check for "@ + path@
            + "; re-downloading"@,
{
    let mut out = "warning: existing target failed integrity check for ".to_owned();
    out.append(path);
    out.append("; re-downloading");
    out
}

/// What is measured of a file that holds `content`.
pub open spec fn measured_of(measure: Measure, content: Seq<u8>) -> MeasuredView {
    match measure {
        Measure::Checksum(algorithm) => MeasuredView::Checksum(checksum_text(algorithm, content)),
        Measure::Size => MeasuredView::Size(content.len() as u64),
        Measure::Nothing => MeasuredView::Nothing,
    }
}

/// Whether content is what the source tells of a file, by the best measure it offers.
pub open spec fn is_intact(file: FileView, content: Seq<u8>) -> bool {
    match best_measure(file) {
        Measure::Checksum(algorithm) => same_ignoring_case(
            checksum_text(algorithm, content),
            told_checksum(file),
        ),
        Measure::Size => content.len() == file.size->0,
        Measure::Nothing => true,
    }
}

/// The check passes exactly the files that are intact.
pub proof fn check_finds_damage(file: FileView, target: Seq<char>, content: Seq<u8>)
    requires
        content.len() <= u64::MAX,
    ensures
        is_answer(best_measure(file), measured_of(best_measure(file), content)),
        difference(file, target, measured_of(best_measure(file), content)) is None <==> is_intact(
            file,
            content,
        ),
{
}

/// Whether a failure says that a file differs from what its source tells.
pub open spec fn is_damage(failure: Failure) -> bool {
    failure is ChecksumMismatch || failure is SizeMismatch
}

/// Whether an error says that a file differs from what its source tells.
pub fn shows_damage(error: &MgetError) -> (r: bool)
    ensures
        r == is_damage(error@),
{
    match error {
        MgetError::ChecksumMismatch { .. } => true,
        MgetError::SizeMismatch { .. } => true,
        _ => false,
    }
}

/// What the check says of a file that differs is that it differs: such a file is
/// downloaded again and never reported as some other failure.
pub proof fn differences_are_damage(file: FileView, target: Seq<char>, measured: MeasuredView)
    ensures
        difference(file, target, measured) matches Some(failure) ==> is_damage(failure),
{
}

/// A SHA-256 that the source tells decides: content passes exactly if its SHA-256 is that one,
/// up to the case of letters, whether or not an MD5 or a size is told.
pub proof fn sha256_decides(file: FileView, target: Seq<char>, content: Seq<u8>)
    requires
        file.sha256 is Some,
    ensures
        ({
            let sum = hex_encoded(sha256_digest(content));
            let found = difference(file, target, measured_of(best_measure(file), content));
            &&& is_intact(file, content) <==> same_ignoring_case(sum, file.sha256->0)
            &&& same_ignoring_case(sum, file.sha256->0) ==> found is None
            &&& !same_ignoring_case(sum, file.sha256->0) ==> found == Some(
                Failure::ChecksumMismatch {
                    path: target,
                    expected: file.sha256->0,
                    actual: sum,
                },
            )
        }),
{
}

/// Without a SHA-256 an MD5 that the source tells decides, whether or not a size is told.
pub proof fn md5_decides_next(file: FileView, target: Seq<char>, content: Seq<u8>)
    requires
        file.sha256 is None,
        file.md5 is Some,
    ensures
        ({
            let sum = hex_encoded(md5_digest(content));
            let found = difference(file, target, measured_of(best_measure(file), content));
            &&& is_intact(file, content) <==> same_ignoring_case(sum, file.md5->0)
            &&& same_ignoring_case(sum, file.md5->0) ==> found is None
            &&& !same_ignoring_case(sum, file.md5->0) ==> found == Some(
                Failure::ChecksumMismatch { path: target, expected: file.md5->0, actual: sum },
            )
        }),
{
}

/// Without a checksum the size decides, and without that every content passes.
pub proof fn size_decides_last(file: FileView, target: Seq<char>, content: Seq<u8>)
    requires
        file.sha256 is None,
        file.md5 is None,
        content.len() <= u64::MAX,
    ensures
        ({
            let found = difference(file, target, measured_of(best_measure(file), content));
            match file.size {
                Some(size) => {
                    &&& is_intact(file, content) <==> content.len() == size
                    &&& content.len() == size ==> found is None
                    &&& content.len() != size ==> found == Some(
                        Failure::SizeMismatch {
                            path: target,
                            expected: size,
                            actual: content.len() as u64,
                        },
                    )
                },
                None => is_intact(file, content) && found is None,
            }
        }),
{
}

/// Where a SHA-256 is told, two contents pass only if they have the same digest.
pub proof fn intact_contents_have_one_digest(file: FileView, a: Seq<u8>, b: Seq<u8>)
    requires
        file.sha256 is Some,
        is_intact(file, a),
        is_intact(file, b),
    ensures
        sha256_digest(a) == sha256_digest(b),
{
    sha256_decides(file, Seq::empty(), a);
    sha256_decides(file, Seq::empty(), b);
    let (s, t) = (hex_encoded(sha256_digest(a)), hex_encoded(sha256_digest(b)));
    assert(same_ignoring_case(s, t)) by {
        assert forall|i: int| 0 <= i < s.len() implies #[trigger] ascii_lower(s[i]) == ascii_lower(
            t[i],
        ) by {
            assert(ascii_lower(s[i]) == ascii_lower(file.sha256->0[i]));
            assert(ascii_lower(t[i]) == ascii_lower(file.sha256->0[i]));
        }
    }
    hex_texts_tell_bytes_apart(sha256_digest(a), sha256_digest(b));
}

/// A failure outside is no damage: only a checksum or a size that differs has a file
/// downloaded again.
pub proof fn other_failures_are_no_damage(text: Seq<char>)
    ensures
        !is_damage(Failure::Network(text)),
        !is_damage(Failure::Io(text)),
        !is_damage(Failure::Message(text)),
        !is_damage(Failure::DownloadFailed(text)),
{
}

} // verus!
