//! The steps in which one file is downloaded.

use vstd::prelude::*;

use crate::download::range::LARGE_FILE_CHUNK_THRESHOLD;
use crate::download::verify::{is_damage, is_intact, shows_damage};
use crate::error::{Failure, MgetError};
use crate::source::FileView;

verus! {

/// The largest number of chunks of one file that are fetched at a time.
pub const DEFAULT_CHUNK_THREADS: usize = 2;

/// A step in the download of a file.
#[derive(Debug)]
pub enum FileStep {
    /// Look whether the target is there.
    InspectTarget,
    /// Check the target that is there.
    CheckTarget,
    /// Remove the target, which did not pass the check.
    RemoveTarget,
    /// Create the directory of the target.
    MakeParent,
    /// Ask the server whether parts of the file can be asked for.
    ProbeRanges,
    /// Look at what an earlier download has left.
    InspectTemp,
    /// Remove a record of chunks, and the partial file that it does not fit.
    DropResume,
    /// Fetch the file in chunks, so many at a time.
    FetchRanges { threads: usize },
    /// Remove what the download in chunks has left, which failed.
    DropTemp,
    /// Fetch the file in one stream.
    FetchStream,
    /// Check the file that was fetched.
    CheckDownload,
    /// Remove what the download has left beside the file.
    CleanUp,
    /// The file is there; `skipped` says that it was there before.
    Done { skipped: bool },
    /// The download failed.
    Fail(MgetError),
}

/// What came of a step.
#[derive(Debug)]
pub enum Outcome {
    /// Whether the target is there.
    Target(bool),
    /// Whether parts of the file can be asked for.
    Ranges(bool),
    /// The length of the partial file, if there is one, and whether there is a record of
    /// chunks.
    Temp { part_len: Option<u64>, state_exists: bool },
    /// The step was done, or failed.
    Finished(Result<(), MgetError>),
}

/// A step, with its failure as a value of its own.
pub ghost enum StepView {
    InspectTarget,
    CheckTarget,
    RemoveTarget,
    MakeParent,
    ProbeRanges,
    InspectTemp,
    DropResume,
    FetchRanges { threads: usize },
    DropTemp,
    FetchStream,
    CheckDownload,
    CleanUp,
    Done { skipped: bool },
    Fail(Failure),
}

/// What came of a step; a failure is a value of its own.
pub ghost enum OutcomeView {
    Target(bool),
    Ranges(bool),
    Temp { part_len: Option<u64>, state_exists: bool },
    Finished(Option<Failure>),
}

impl View for FileStep {
    type V = StepView;

    open spec fn view(&self) -> StepView {
        match *self {
            FileStep::InspectTarget => StepView::InspectTarget,
            FileStep::CheckTarget => StepView::CheckTarget,
            FileStep::RemoveTarget => StepView::RemoveTarget,
            FileStep::MakeParent => StepView::MakeParent,
            FileStep::ProbeRanges => StepView::ProbeRanges,
            FileStep::InspectTemp => StepView::InspectTemp,
            FileStep::DropResume => StepView::DropResume,
            FileStep::FetchRanges { threads } => StepView::FetchRanges { threads },
            FileStep::DropTemp => StepView::DropTemp,
            FileStep::FetchStream => StepView::FetchStream,
            FileStep::CheckDownload => StepView::CheckDownload,
            FileStep::CleanUp => StepView::CleanUp,
            FileStep::Done { skipped } => StepView::Done { skipped },
            FileStep::Fail(error) => StepView::Fail(error@),
        }
    }
}

impl View for Outcome {
    type V = OutcomeView;

    open spec fn view(&self) -> OutcomeView {
        match *self {
            Outcome::Target(there) => OutcomeView::Target(there),
            Outcome::Ranges(supported) => OutcomeView::Ranges(supported),
            Outcome::Temp { part_len, state_exists } => {
                OutcomeView::Temp { part_len, state_exists }
            },
            Outcome::Finished(Ok(_)) => OutcomeView::Finished(None),
            Outcome::Finished(Err(error)) => OutcomeView::Finished(Some(error@)),
        }
    }
}

/// Whether an outcome is one that a step can have; the last steps have none.
pub open spec fn can_have(step: StepView, outcome: OutcomeView) -> bool {
    match step {
        StepView::InspectTarget => outcome is Target,
        StepView::ProbeRanges => outcome is Ranges,
        StepView::InspectTemp => outcome is Temp,
        StepView::Done { .. } => false,
        StepView::Fail(_) => false,
        _ => outcome is Finished,
    }
}

/// How many chunks are fetched at a time where `threads` downloads may run.
pub open spec fn chunk_threads(threads: usize) -> usize {
    if threads == 0 {
        1
    } else if threads < DEFAULT_CHUNK_THREADS {
        threads
    } else {
        DEFAULT_CHUNK_THREADS
    }
}

/// Whether a file is large enough to be fetched in chunks.
pub open spec fn is_large(size: Option<u64>) -> bool {
    size matches Some(size) && size >= LARGE_FILE_CHUNK_THRESHOLD
}

/// Whether what an earlier download has left is the start of a stream.
pub open spec fn is_stream_part(part_len: Option<u64>, state_exists: bool) -> bool {
    !state_exists && (part_len matches Some(len) && len > 0)
}

/// Whether there is a record of chunks that the partial file does not fit.
pub open spec fn is_stale(part_len: Option<u64>, state_exists: bool, size: Option<u64>) -> bool {
    state_exists && (part_len is None || part_len != size)
}

/// Goes on with `next`, unless the step failed.
pub open spec fn unless_failed(result: Option<Failure>, next: StepView) -> StepView {
    match result {
        None => next,
        Some(failure) => StepView::Fail(failure),
    }
}

/// The step that follows. What is there is kept if it passes the check; a large file is
/// fetched in chunks where the server sends parts and no stream was begun, and in a
/// fresh stream if that fails; what was fetched is checked before anything is cleaned
/// up.
pub open spec fn step_after(
    step: StepView,
    outcome: OutcomeView,
    size: Option<u64>,
    threads: usize,
) -> StepView {
    let ranges = StepView::FetchRanges { threads: chunk_threads(threads) };
    match (step, outcome) {
        (StepView::InspectTarget, OutcomeView::Target(there)) => if there {
            StepView::CheckTarget
        } else {
            StepView::MakeParent
        },
        (StepView::CheckTarget, OutcomeView::Finished(result)) => match result {
            None => StepView::Done { skipped: true },
            Some(failure) => if is_damage(failure) {
                StepView::RemoveTarget
            } else {
                StepView::Fail(failure)
            },
        },
        (StepView::RemoveTarget, OutcomeView::Finished(result)) => unless_failed(
            result,
            StepView::MakeParent,
        ),
        (StepView::MakeParent, OutcomeView::Finished(result)) => unless_failed(
            result,
            StepView::ProbeRanges,
        ),
        (StepView::ProbeRanges, OutcomeView::Ranges(supported)) => if supported && is_large(size) {
            StepView::InspectTemp
        } else {
            StepView::FetchStream
        },
        (StepView::InspectTemp, OutcomeView::Temp { part_len, state_exists }) => {
            if is_stream_part(part_len, state_exists) {
                StepView::FetchStream
            } else if is_stale(part_len, state_exists, size) {
                StepView::DropResume
            } else {
                ranges
            }
        },
        (StepView::DropResume, OutcomeView::Finished(result)) => unless_failed(result, ranges),
        (StepView::FetchRanges { .. }, OutcomeView::Finished(result)) => match result {
            None => StepView::CheckDownload,
            Some(_) => StepView::DropTemp,
        },
        (StepView::DropTemp, OutcomeView::Finished(result)) => unless_failed(
            result,
            StepView::FetchStream,
        ),
        (StepView::FetchStream, OutcomeView::Finished(result)) => unless_failed(
            result,
            StepView::CheckDownload,
        ),
        (StepView::CheckDownload, OutcomeView::Finished(result)) => unless_failed(
            result,
            StepView::CleanUp,
        ),
        (StepView::CleanUp, OutcomeView::Finished(result)) => unless_failed(
            result,
            StepView::Done { skipped: false },
        ),
        _ => step,
    }
}

/// Goes on with `next`, unless the step failed.
fn go_on(result: Result<(), MgetError>, next: FileStep) -> (r: FileStep)
    ensures
        r@ == unless_failed(Outcome::Finished(result)@->Finished_0, next@),
{
    match result {
        Ok(_) => next,
        Err(error) => FileStep::Fail(error),
    }
}

/// How many chunks are fetched at a time.
pub fn threads_for_chunks(threads: usize) -> (r: usize)
    ensures
        r == chunk_threads(threads),
{
    if threads == 0 {
        1
    } else if threads < DEFAULT_CHUNK_THREADS {
        threads
    } else {
        DEFAULT_CHUNK_THREADS
    }
}

/// Whether the record of chunks and the partial file of a download are to be removed
/// before it goes on: there is a record, and the partial file has not the size of the
/// file.
pub fn sanitize_range_resume_state(part_len: Option<u64>, state_exists: bool, size: u64) -> (r: bool)
    ensures
        r == is_stale(part_len, state_exists, Some(size)),
{
    if !state_exists {
        return false;
    }
    match part_len {
        Some(len) => len != size,
        None => true,
    }
}

/// The step of the download of a file that follows `step`, for a file of the given size,
/// if that is known, where `threads` downloads may run.
pub fn next_step(step: FileStep, outcome: Outcome, size: Option<u64>, threads: usize) -> (r:
    FileStep)
    requires
        can_have(step@, outcome@),
    ensures
        r@ == step_after(step@, outcome@, size, threads),
{
    match (step, outcome) {
        (FileStep::InspectTarget, Outcome::Target(there)) => if there {
            FileStep::CheckTarget
        } else {
            FileStep::MakeParent
        },
        (FileStep::CheckTarget, Outcome::Finished(result)) => match result {
            Ok(_) => FileStep::Done { skipped: true },
            Err(error) => if shows_damage(&error) {
                FileStep::RemoveTarget
            } else {
                FileStep::Fail(error)
            },
        },
        (FileStep::RemoveTarget, Outcome::Finished(result)) => go_on(result, FileStep::MakeParent),
        (FileStep::MakeParent, Outcome::Finished(result)) => go_on(result, FileStep::ProbeRanges),
        (FileStep::ProbeRanges, Outcome::Ranges(supported)) => {
            let bytes: u64 = match size {
                Some(size) => size,
                None => 0,
            };
            if supported && bytes >= LARGE_FILE_CHUNK_THRESHOLD {
                FileStep::InspectTemp
            } else {
                FileStep::FetchStream
            }
        },
        (FileStep::InspectTemp, Outcome::Temp { part_len, state_exists }) => {
            let started = match part_len {
                Some(len) => len > 0,
                None => false,
            };
            let stale = match size {
                Some(size) => sanitize_range_resume_state(part_len, state_exists, size),
                None => state_exists,
            };
            if started && !state_exists {
                FileStep::FetchStream
            } else if stale {
                FileStep::DropResume
            } else {
                FileStep::FetchRanges { threads: threads_for_chunks(threads) }
            }
        },
        (FileStep::DropResume, Outcome::Finished(result)) => go_on(
            result,
            FileStep::FetchRanges { threads: threads_for_chunks(threads) },
        ),
        (FileStep::FetchRanges { .. }, Outcome::Finished(result)) => match result {
            Ok(_) => FileStep::CheckDownload,
            Err(_) => FileStep::DropTemp,
        },
        (FileStep::DropTemp, Outcome::Finished(result)) => go_on(result, FileStep::FetchStream),
        (FileStep::FetchStream, Outcome::Finished(result)) => go_on(result, FileStep::CheckDownload),
        (FileStep::CheckDownload, Outcome::Finished(result)) => go_on(result, FileStep::CleanUp),
        (FileStep::CleanUp, Outcome::Finished(result)) => go_on(
            result,
            FileStep::Done { skipped: false },
        ),
        (step, _) => step,
    }
}

/// The warning for a download in chunks that failed.
pub fn fallback_warning(path: &str, error: &MgetError) -> (out: String)
    ensures
        out@ == "warning: ranged download failed for "@ + path@ + "; falling back to stream: "@
            + error@.text(),
{
    let mut out = "warning: ranged download failed for ".to_owned();
    out.append(path);
    out.append("; falling back to stream: ");
    let text = error.message();
    out.append(text.as_str());
    out
}

/// The steps of the download of a file from the first one on, with what came of each of
/// them but the last.
pub open spec fn is_run(
    steps: Seq<StepView>,
    outcomes: Seq<OutcomeView>,
    size: Option<u64>,
    threads: usize,
) -> bool {
    &&& steps.len() == outcomes.len() + 1
    &&& steps[0] == StepView::InspectTarget
    &&& forall|i: int| 0 <= i < outcomes.len() ==> #[trigger] follows(steps, outcomes, size, threads, i)
}

/// Whether the step behind the one with the number `i` is the one that follows it.
pub open spec fn follows(
    steps: Seq<StepView>,
    outcomes: Seq<OutcomeView>,
    size: Option<u64>,
    threads: usize,
    i: int,
) -> bool {
    can_have(steps[i], outcomes[i]) && steps[i + 1] == step_after(
        steps[i],
        outcomes[i],
        size,
        threads,
    )
}

/// How many steps can follow at most.
pub open spec fn steps_left(step: StepView) -> nat {
    match step {
        StepView::InspectTarget => 12,
        StepView::CheckTarget => 11,
        StepView::RemoveTarget => 10,
        StepView::MakeParent => 9,
        StepView::ProbeRanges => 8,
        StepView::InspectTemp => 7,
        StepView::DropResume => 6,
        StepView::FetchRanges { .. } => 5,
        StepView::DropTemp => 4,
        StepView::FetchStream => 3,
        StepView::CheckDownload => 2,
        StepView::CleanUp => 1,
        StepView::Done { .. } => 0,
        StepView::Fail(_) => 0,
    }
}

/// The download of a file comes to an end: every step brings it closer.
pub proof fn steps_come_to_an_end(
    step: StepView,
    outcome: OutcomeView,
    size: Option<u64>,
    threads: usize,
)
    requires
        can_have(step, outcome),
    ensures
        steps_left(step_after(step, outcome, size, threads)) < steps_left(step),
{
}

/// Later steps of a run have fewer steps left.
proof fn lemma_run_advances(
    steps: Seq<StepView>,
    outcomes: Seq<OutcomeView>,
    size: Option<u64>,
    threads: usize,
    i: int,
    j: int,
)
    requires
        is_run(steps, outcomes, size, threads),
        0 <= i < j < steps.len(),
    ensures
        steps_left(steps[j]) + (j - i) <= steps_left(steps[i]),
    decreases j - i,
{
    assert(follows(steps, outcomes, size, threads, j - 1));
    if i < j - 1 {
        lemma_run_advances(steps, outcomes, size, threads, i, j - 1);
    }
}

/// No run has more than thirteen steps.
pub proof fn runs_are_short(
    steps: Seq<StepView>,
    outcomes: Seq<OutcomeView>,
    size: Option<u64>,
    threads: usize,
)
    requires
        is_run(steps, outcomes, size, threads),
    ensures
        steps.len() <= 13,
{
    if steps.len() > 1 {
        lemma_run_advances(steps, outcomes, size, threads, 0, steps.len() - 1);
    }
}

/// Whether a step writes or removes the target.
pub open spec fn changes_target(step: StepView) -> bool {
    step is RemoveTarget || step is FetchRanges || step is FetchStream
}

/// A file is done only after it passed the check, and nothing writes or removes it after
/// that.
pub proof fn done_means_checked(
    steps: Seq<StepView>,
    outcomes: Seq<OutcomeView>,
    size: Option<u64>,
    threads: usize,
)
    requires
        is_run(steps, outcomes, size, threads),
        steps.last() is Done,
    ensures
        exists|i: int|
            {
                &&& 0 <= i < outcomes.len()
                &&& (#[trigger] steps[i]) is CheckTarget || steps[i] is CheckDownload
                &&& outcomes[i] == OutcomeView::Finished(None)
                &&& forall|j: int| i < j < steps.len() ==> !changes_target(#[trigger] steps[j])
            },
{
    let n = steps.len() - 1;
    assert(follows(steps, outcomes, size, threads, n - 1));
    if steps[n - 1] is CleanUp {
        assert(follows(steps, outcomes, size, threads, n - 2));
        let i = n - 2;
        assert(steps[i] is CheckDownload);
        assert forall|j: int| i < j < steps.len() implies !changes_target(#[trigger] steps[j]) by {
            assert(j == n - 1 || j == n);
        }
    } else {
        let i = n - 1;
        assert(steps[i] is CheckTarget);
    }
}

/// Whether the step with the number `i` leaves the bytes of the target as they are.
pub open spec fn keeps_target(contents: Seq<Seq<u8>>, i: int) -> bool {
    contents[i + 1] == contents[i]
}

/// A target that no step changes stays as it is.
proof fn lemma_target_stays(contents: Seq<Seq<u8>>, i: int, j: int)
    requires
        0 <= i <= j < contents.len(),
        forall|k: int| i <= k < j ==> #[trigger] keeps_target(contents, k),
    ensures
        contents[j] == contents[i],
    decreases j - i,
{
    if i < j {
        lemma_target_stays(contents, i, j - 1);
        assert(keeps_target(contents, j - 1));
    }
}

/// A download that is done leaves a file that is intact: `contents` are the bytes of the
/// target before each step, which only the steps that change it change, and a check passes
/// only if they are intact.
pub proof fn done_means_intact(
    steps: Seq<StepView>,
    outcomes: Seq<OutcomeView>,
    size: Option<u64>,
    threads: usize,
    file: FileView,
    contents: Seq<Seq<u8>>,
)
    requires
        is_run(steps, outcomes, size, threads),
        steps.last() is Done,
        contents.len() == steps.len(),
        forall|i: int|
            0 <= i < outcomes.len() && !changes_target(#[trigger] steps[i]) ==> keeps_target(
                contents,
                i,
            ),
        forall|i: int|
            0 <= i < outcomes.len() && ((#[trigger] steps[i]) is CheckTarget || steps[i]
                is CheckDownload) && outcomes[i] == OutcomeView::Finished(None) ==> is_intact(
                file,
                contents[i],
            ),
    ensures
        is_intact(file, contents.last()),
{
    done_means_checked(steps, outcomes, size, threads);
    let i = choose|i: int|
        {
            &&& 0 <= i < outcomes.len()
            &&& (#[trigger] steps[i]) is CheckTarget || steps[i] is CheckDownload
            &&& outcomes[i] == OutcomeView::Finished(None)
            &&& forall|j: int| i < j < steps.len() ==> !changes_target(#[trigger] steps[j])
        };
    let last = steps.len() - 1;
    assert forall|k: int| i <= k < last implies #[trigger] keeps_target(contents, k) by {
        assert(!changes_target(steps[k]));
    }
    lemma_target_stays(contents, i, last);
}

/// A stream that follows a download in chunks follows it only when that failed, and only
/// after all that it had written was removed.
pub proof fn fallback_starts_clean(
    steps: Seq<StepView>,
    outcomes: Seq<OutcomeView>,
    size: Option<u64>,
    threads: usize,
    i: int,
    j: int,
)
    requires
        is_run(steps, outcomes, size, threads),
        0 <= i < j < steps.len(),
        steps[i] is FetchRanges,
        steps[j] is FetchStream,
    ensures
        j == i + 2,
        outcomes[i] matches OutcomeView::Finished(Some(_)),
        steps[i + 1] is DropTemp,
        outcomes[i + 1] == OutcomeView::Finished(None),
{
    assert(follows(steps, outcomes, size, threads, i));
    if j == i + 1 {
        assert(false);
    }
    assert(follows(steps, outcomes, size, threads, i + 1));
    if j > i + 2 {
        lemma_run_advances(steps, outcomes, size, threads, i + 2, j);
    }
}

/// A file is fetched in chunks only if it is large, the server sends parts, no stream was
/// begun, and no record is left that the partial file does not fit.
pub proof fn ranges_only_where_they_fit(
    steps: Seq<StepView>,
    outcomes: Seq<OutcomeView>,
    size: Option<u64>,
    threads: usize,
    i: int,
)
    requires
        is_run(steps, outcomes, size, threads),
        0 <= i < steps.len(),
        steps[i] is FetchRanges,
    ensures
        steps[i]->threads == chunk_threads(threads),
        is_large(size),
        exists|k: int|
            {
                &&& 1 <= k < i
                &&& steps[k - 1] is ProbeRanges
                &&& outcomes[k - 1] == OutcomeView::Ranges(true)
                &&& (#[trigger] steps[k]) is InspectTemp
                &&& outcomes[k] matches OutcomeView::Temp { part_len, state_exists } && {
                    &&& !is_stream_part(part_len, state_exists)
                    &&& is_stale(part_len, state_exists, size) ==> (k + 2 == i && steps[k + 1]
                        is DropResume && outcomes[k + 1] == OutcomeView::Finished(None))
                }
            },
{
    assert(follows(steps, outcomes, size, threads, i - 1));
    let k = if steps[i - 1] is InspectTemp {
        i - 1
    } else {
        i - 2
    };
    assert(steps[0] is InspectTarget);
    assert(i - 1 > 0);
    if steps[i - 1] is DropResume {
        assert(follows(steps, outcomes, size, threads, i - 2));
    }
    assert(steps[k] is InspectTemp);
    assert(follows(steps, outcomes, size, threads, k - 1));
}

/// A failure of the download is the failure of its last step.
pub proof fn failures_are_reported(
    steps: Seq<StepView>,
    outcomes: Seq<OutcomeView>,
    size: Option<u64>,
    threads: usize,
)
    requires
        is_run(steps, outcomes, size, threads),
        steps.last() is Fail,
    ensures
        outcomes.len() > 0,
        outcomes.last() == OutcomeView::Finished(Some(steps.last()->Fail_0)),
{
    let n = steps.len() - 1;
    assert(follows(steps, outcomes, size, threads, n - 1));
}

/// A target that is there is checked, and kept if it passes; one that is damaged is removed and
/// fetched again; and one that is not there is fetched.
pub proof fn targets_are_kept_if_intact(size: Option<u64>, threads: usize, failure: Failure)
    ensures
        step_after(StepView::InspectTarget, OutcomeView::Target(true), size, threads)
            == StepView::CheckTarget,
        step_after(StepView::CheckTarget, OutcomeView::Finished(None), size, threads) == (
        StepView::Done { skipped: true }),
        failure is ChecksumMismatch || failure is SizeMismatch ==> step_after(
            StepView::CheckTarget,
            OutcomeView::Finished(Some(failure)),
            size,
            threads,
        ) == StepView::RemoveTarget,
        step_after(StepView::RemoveTarget, OutcomeView::Finished(None), size, threads) == step_after(
            StepView::InspectTarget,
            OutcomeView::Target(false),
            size,
            threads,
        ),
        step_after(StepView::InspectTarget, OutcomeView::Target(false), size, threads)
            == StepView::MakeParent,
        step_after(StepView::MakeParent, OutcomeView::Finished(None), size, threads)
            == StepView::ProbeRanges,
{
}

/// How a file is fetched: in one stream if it is smaller than 256 MiB, of unknown size, or
/// served without ranges; otherwise it depends on what an earlier download has left.
pub proof fn small_files_are_streamed(size: Option<u64>, threads: usize, supported: bool)
    ensures
        step_after(StepView::ProbeRanges, OutcomeView::Ranges(supported), size, threads) == (
        if supported && (size matches Some(bytes) && bytes >= 256 * 1024 * 1024) {
            StepView::InspectTemp
        } else {
            StepView::FetchStream
        }),
{
}

/// A download goes on in the way it was begun: a partial file without a record is the start of a
/// stream; a record is used with a partial file of the size of the file, and dropped with any
/// other; and where nothing was begun the file is fetched in chunks.
pub proof fn downloads_go_on_as_begun(
    size: u64,
    len: u64,
    threads: usize,
    part_len: Option<u64>,
    state_exists: bool,
)
    ensures
        ({
            let after = |outcome: OutcomeView|
                step_after(StepView::InspectTemp, outcome, Some(size), threads);
            &&& len > 0 ==> after(
                OutcomeView::Temp { part_len: Some(len), state_exists: false },
            ) is FetchStream
            &&& after(OutcomeView::Temp { part_len: Some(size), state_exists: true }) is FetchRanges
            &&& len != size ==> after(
                OutcomeView::Temp { part_len: Some(len), state_exists: true },
            ) is DropResume
            &&& after(OutcomeView::Temp { part_len: None, state_exists: true }) is DropResume
            &&& after(OutcomeView::Temp { part_len: None, state_exists: false }) is FetchRanges
            &&& after(OutcomeView::Temp { part_len: Some(0), state_exists: false }) is FetchRanges
        }),
        step_after(
            StepView::DropResume,
            OutcomeView::Finished(None),
            Some(size),
            threads,
        ) is FetchRanges,
        is_stale(part_len, state_exists, Some(size)) <==> state_exists && part_len != Some(size),
{
}

/// What was fetched is checked, then what the download has left is removed, and then the file
/// is done; a download in chunks that failed is followed by a stream once its rest is removed.
pub proof fn fetched_files_are_checked(
    size: Option<u64>,
    threads: usize,
    n: usize,
    failure: Failure,
)
    ensures
        step_after(
            StepView::FetchRanges { threads: n },
            OutcomeView::Finished(None),
            size,
            threads,
        ) == StepView::CheckDownload,
        step_after(
            StepView::FetchRanges { threads: n },
            OutcomeView::Finished(Some(failure)),
            size,
            threads,
        ) == StepView::DropTemp,
        step_after(StepView::DropTemp, OutcomeView::Finished(None), size, threads)
            == StepView::FetchStream,
        step_after(StepView::FetchStream, OutcomeView::Finished(None), size, threads)
            == StepView::CheckDownload,
        step_after(StepView::CheckDownload, OutcomeView::Finished(None), size, threads)
            == StepView::CleanUp,
        step_after(StepView::CleanUp, OutcomeView::Finished(None), size, threads) == (
        StepView::Done { skipped: false }),
{
}

/// A step that fails ends the download with its failure, but for a target that is damaged and a
/// download in chunks, which have something left to try.
pub proof fn failures_end_the_download(
    step: StepView,
    failure: Failure,
    size: Option<u64>,
    threads: usize,
)
    requires
        can_have(step, OutcomeView::Finished(Some(failure))),
        step !is FetchRanges,
        step is CheckTarget ==> failure !is ChecksumMismatch && failure !is SizeMismatch,
    ensures
        step_after(step, OutcomeView::Finished(Some(failure)), size, threads) == StepView::Fail(
            failure,
        ),
{
}

/// Chunks are fetched two at a time, or one at a time where only one download may run.
pub proof fn chunk_threads_are_few(threads: usize)
    ensures
        threads <= 1 ==> chunk_threads(threads) == 1,
        threads >= 2 ==> chunk_threads(threads) == 2,
{
}

} // verus!
