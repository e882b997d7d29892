//! The choice of a source by the latency of its answers.

use vstd::prelude::*;

use crate::cli::SourceChoice;
use crate::error::MgetError;
use crate::number::{decimal, decimal_text};
use crate::source::{RepoType, SourceKind};
use crate::status::{
    is_redirection, is_status, is_success, redirection, status_text, status_words, success,
    METHOD_NOT_ALLOWED,
};
use crate::text::{starts_with, text_of, texts};

verus! {

/// How long a source may take to answer a probe, in milliseconds.
pub const PROBE_TIMEOUT_MILLIS: u64 = 2500;

/// The latency up to which Hugging Face is preferred to any other source.
pub const PREFERRED_LATENCY_NANOS: u128 = 200_000_000;

/// The nanoseconds in a number of milliseconds.
pub open spec fn nanos_in(millis: u64) -> int {
    millis * 1_000_000
}

/// The whole milliseconds in a number of nanoseconds.
pub open spec fn whole_millis(nanos: int) -> int {
    nanos / 1_000_000
}

/// A span of time.
#[derive(Debug, Clone, Copy, PartialEq, Eq, Structural)]
pub struct Latency {
    pub nanos: u128,
}

impl Latency {
    /// A number of milliseconds.
    pub fn from_millis(millis: u64) -> (r: Self)
        ensures
            r.nanos == nanos_in(millis),
    {
        Latency { nanos: millis as u128 * 1_000_000 }
    }

    /// The whole milliseconds of the span.
    pub fn as_millis(self) -> (r: u128)
        ensures
            r == whole_millis(self.nanos as int),
    {
        self.nanos / 1_000_000
    }
}

/// What became of the probe of a source.
#[derive(Debug)]
pub struct ProbeResult {
    pub source: SourceKind,
    pub latency: Option<Latency>,
    pub error: Option<String>,
}

impl ProbeResult {
    /// Whether the source answered.
    pub fn is_available(&self) -> (r: bool)
        ensures
            r == (self.latency is Some),
    {
        self.latency.is_some()
    }
}

/// Whether a result shows Hugging Face answering fast enough to be preferred.
pub open spec fn is_preferred(result: ProbeResult) -> bool {
    result.source == SourceKind::HuggingFace && (result.latency matches Some(latency)
        && latency.nanos <= PREFERRED_LATENCY_NANOS)
}

/// Whether the result at `i` is the first of those with the lowest latency.
pub open spec fn is_first_fastest(results: Seq<ProbeResult>, i: int) -> bool {
    &&& 0 <= i < results.len()
    &&& results[i].latency is Some
    &&& forall|j: int|
        0 <= j < results.len() && (#[trigger] results[j]).latency is Some ==> {
            &&& results[i].latency->0.nanos <= results[j].latency->0.nanos
            &&& j < i ==> results[i].latency->0.nanos < results[j].latency->0.nanos
        }
}

/// Whether `source` is the choice among results: Hugging Face when it answers fast
/// enough, else the first of the fastest.
pub open spec fn is_choice(results: Seq<ProbeResult>, source: SourceKind) -> bool {
    if exists|i: int| 0 <= i < results.len() && is_preferred(#[trigger] results[i]) {
        source == SourceKind::HuggingFace
    } else {
        exists|i: int| #[trigger] is_first_fastest(results, i) && results[i].source == source
    }
}

/// Whether no source answered.
pub open spec fn none_available(results: Seq<ProbeResult>) -> bool {
    forall|i: int| 0 <= i < results.len() ==> (#[trigger] results[i]).latency is None
}

/// Chooses a source by the results of the probes.
pub fn choose_best(results: &[ProbeResult]) -> (r: Result<SourceKind, MgetError>)
    ensures
        match r {
            Ok(source) => is_choice(results@, source),
            Err(MgetError::NoAvailableSource) => none_available(results@),
            Err(_) => false,
        },
{
    let mut best: Option<usize> = None;
    let mut i: usize = 0;
    while i < results.len()
        invariant
            i <= results.len(),
            forall|j: int| 0 <= j < i ==> !is_preferred(#[trigger] results@[j]),
            best is None ==> none_available(results@.take(i as int)),
            best matches Some(b) ==> is_first_fastest(results@.take(i as int), b as int),
        decreases results.len() - i,
    {
        let result = &results[i];
        let ghost seen = results@.take(i as int);
        let ghost next = results@.take(i + 1);
        assert(next == seen.push(*result));
        if let Some(latency) = result.latency {
            if result.source == SourceKind::HuggingFace && latency.nanos <= PREFERRED_LATENCY_NANOS {
                assert(is_preferred(results@[i as int]));
                return Ok(SourceKind::HuggingFace);
            }
            match best {
                Some(b) => {
                    assert(next[b as int] == seen[b as int]);
                    if let Some(lowest) = results[b].latency {
                        if latency.nanos < lowest.nanos {
                            best = Some(i);
                        }
                    }
                },
                None => {
                    best = Some(i);
                },
            }
        }
        proof {
            assert forall|j: int| 0 <= j < next.len() implies #[trigger] next[j] == results@[j] by {}
            assert forall|j: int| 0 <= j < seen.len() implies #[trigger] seen[j] == next[j] by {}
            assert(next[i as int] == *result);
            if let Some(b) = best {
                assert forall|j: int|
                    0 <= j < next.len() && (#[trigger] next[j]).latency is Some implies {
                    &&& next[b as int].latency->0.nanos <= next[j].latency->0.nanos
                    &&& j < b ==> next[b as int].latency->0.nanos < next[j].latency->0.nanos
                } by {
                    if j < i {
                        assert(seen[j] == next[j]);
                    }
                }
                assert(is_first_fastest(next, b as int));
            } else {
                assert forall|j: int| 0 <= j < next.len() implies (#[trigger] next[j]).latency is None
                    by {
                    if j < i {
                        assert(seen[j] == next[j]);
                    }
                }
            }
        }
        i += 1;
    }
    assert(results@.take(i as int) == results@);
    match best {
        Some(b) => {
            assert(is_first_fastest(results@, b as int));
            Ok(results[b].source)
        },
        None => Err(MgetError::NoAvailableSource),
    }
}

/// There is at most one choice.
pub proof fn choice_is_unique(results: Seq<ProbeResult>, a: SourceKind, b: SourceKind)
    requires
        is_choice(results, a),
        is_choice(results, b),
    ensures
        a == b,
{
    if !(exists|i: int| 0 <= i < results.len() && is_preferred(#[trigger] results[i])) {
        let i = choose|i: int| #[trigger] is_first_fastest(results, i) && results[i].source == a;
        let j = choose|j: int| #[trigger] is_first_fastest(results, j) && results[j].source == b;
        assert(results[i].latency is Some && results[j].latency is Some);
    }
}

/// A source is chosen only if it was probed and answered.
pub proof fn choice_answered(results: Seq<ProbeResult>, source: SourceKind)
    requires
        is_choice(results, source),
    ensures
        exists|i: int|
            0 <= i < results.len() && (#[trigger] results[i]).source == source
                && results[i].latency is Some,
{
    if exists|i: int| 0 <= i < results.len() && is_preferred(#[trigger] results[i]) {
        let i = choose|i: int| 0 <= i < results.len() && is_preferred(#[trigger] results[i]);
        assert(results[i].source == source && results[i].latency is Some);
    } else {
        let i = choose|i: int|
            #[trigger] is_first_fastest(results, i) && results[i].source == source;
        assert(results[i].source == source && results[i].latency is Some);
    }
}

/// The sources to probe for a repository. A dataset is not looked for at ModelScope,
/// where its id may name another one.
pub open spec fn probed(repo_type: RepoType) -> Seq<SourceKind> {
    match repo_type {
        RepoType::Model => seq![
            SourceKind::HuggingFace,
            SourceKind::HfMirror,
            SourceKind::ModelScope,
        ],
        RepoType::Dataset => seq![SourceKind::HuggingFace, SourceKind::HfMirror],
    }
}

/// The sources to probe for a repository.
pub fn sources_to_probe(repo_type: RepoType) -> (out: Vec<SourceKind>)
    ensures
        out@ == probed(repo_type),
{
    let mut out: Vec<SourceKind> = Vec::new();
    out.push(SourceKind::HuggingFace);
    out.push(SourceKind::HfMirror);
    if repo_type == RepoType::Model {
        out.push(SourceKind::ModelScope);
    }
    out
}

/// A dataset whose source is chosen by probing never goes to ModelScope.
pub proof fn datasets_avoid_modelscope(results: Seq<ProbeResult>, source: SourceKind)
    requires
        forall|i: int|
            0 <= i < results.len() ==> probed(RepoType::Dataset).contains(
                (#[trigger] results[i]).source,
            ),
        is_choice(results, source),
    ensures
        source != SourceKind::ModelScope,
{
    choice_answered(results, source);
    let i = choose|i: int|
        0 <= i < results.len() && (#[trigger] results[i]).source == source
            && results[i].latency is Some;
    assert(probed(RepoType::Dataset).contains(results[i].source));
}

/// The next step in the choice of a source.
#[derive(Debug)]
pub enum RouteStep {
    /// These sources are to be probed.
    Probe(Vec<SourceKind>),
    /// The source is chosen.
    Use(SourceKind),
    /// There is no source to use.
    Fail(MgetError),
}

/// The source that a choice names.
pub open spec fn named_source(choice: SourceChoice) -> Option<SourceKind> {
    match choice {
        SourceChoice::Hf => Some(SourceKind::HuggingFace),
        SourceChoice::HfMirror => Some(SourceKind::HfMirror),
        SourceChoice::Modelscope => Some(SourceKind::ModelScope),
        SourceChoice::Auto => None,
    }
}

/// The next step in the choice of a source, from what the user chose and the results
/// of the probes once they were made.
pub fn select_source(
    choice: SourceChoice,
    repo_type: RepoType,
    results: Option<&Vec<ProbeResult>>,
) -> (r: RouteStep)
    ensures
        match (named_source(choice), results) {
            (Some(source), _) => r == RouteStep::Use(source),
            (None, None) => r matches RouteStep::Probe(sources) && sources@ == probed(repo_type),
            (None, Some(results)) => match r {
                RouteStep::Use(source) => is_choice(results@, source),
                RouteStep::Fail(MgetError::NoAvailableSource) => none_available(results@),
                _ => false,
            },
        },
{
    match choice {
        SourceChoice::Hf => RouteStep::Use(SourceKind::HuggingFace),
        SourceChoice::HfMirror => RouteStep::Use(SourceKind::HfMirror),
        SourceChoice::Modelscope => RouteStep::Use(SourceKind::ModelScope),
        SourceChoice::Auto => match results {
            None => RouteStep::Probe(sources_to_probe(repo_type)),
            Some(results) => match choose_best(results.as_slice()) {
                Ok(source) => RouteStep::Use(source),
                Err(error) => RouteStep::Fail(error),
            },
        },
    }
}

/// Whether an answer to a probe shows that the source can be used.
pub open spec fn probe_succeeds(code: u16) -> bool {
    success(code) || redirection(code) || code == METHOD_NOT_ALLOWED
}

/// Whether an answer to a probe shows that the source can be used.
pub fn is_probe_success(code: u16) -> (r: bool)
    ensures
        r == probe_succeeds(code),
{
    is_success(code) || is_redirection(code) || code == METHOD_NOT_ALLOWED
}

/// A source that did not answer, with the reason.
pub fn unavailable(source: SourceKind, reason: &str) -> (r: ProbeResult)
    ensures
        r.source == source,
        r.latency is None,
        text_of(r.error) == Some(reason@),
{
    ProbeResult { source, latency: None, error: Some(reason.to_owned()) }
}

/// A source whose answer shows that it cannot be used, with the status in words.
pub fn refused(source: SourceKind, words: &str) -> (r: ProbeResult)
    ensures
        r.source == source,
        r.latency is None,
        text_of(r.error) == Some("HTTP "@ + words@),
{
    let mut reason = "HTTP ".to_owned();
    reason.append(words);
    unavailable(source, reason.as_str())
}

/// The latency of a source that answered with the status `code` after `elapsed`, if the answer
/// shows that it can be used.
pub open spec fn answered_latency(code: u16, elapsed: Latency) -> Option<Latency> {
    if probe_succeeds(code) {
        Some(elapsed)
    } else {
        None
    }
}

/// What became of a probe that was answered with the status `code` after `elapsed`.
pub fn answered(source: SourceKind, code: u16, elapsed: Latency) -> (r: ProbeResult)
    requires
        is_status(code),
    ensures
        r.source == source,
        r.latency == answered_latency(code, elapsed),
        text_of(r.error) == (if probe_succeeds(code) {
            None
        } else {
            Some("HTTP "@ + status_words(code))
        }),
{
    if is_probe_success(code) {
        ProbeResult { source, latency: Some(elapsed), error: None }
    } else {
        let words = status_text(code);
        refused(source, words.as_str())
    }
}

/// What is shown of the probe of a source.
pub open spec fn ping_line_text(result: ProbeResult) -> Seq<char> {
    let start = "* "@ + result.source.label_text();
    match result.latency {
        Some(latency) => start + ": "@ + decimal((latency.nanos as int / 1_000_000) as nat)
            + "ms (available)"@,
        None => start + ": unavailable ("@ + (match text_of(result.error) {
            Some(error) => error,
            None => "unknown error"@,
        }) + ")"@,
    }
}

/// What is shown of the probe of a source.
pub fn ping_line(result: &ProbeResult) -> (out: String)
    ensures
        out@ == ping_line_text(*result),
{
    let mut out = "* ".to_owned();
    out.append(result.source.label());
    match result.latency {
        Some(latency) => {
            out.append(": ");
            let millis = decimal_text(latency.as_millis());
            out.append(millis.as_str());
            out.append("ms (available)");
        },
        None => {
            out.append(": unavailable (");
            match &result.error {
                Some(error) => {
                    out.append(error.as_str());
                },
                None => {
                    out.append("unknown error");
                },
            }
            out.append(")");
        },
    }
    out
}

/// What is shown of the probes, line by line.
pub open spec fn ping_texts(results: Seq<ProbeResult>) -> Seq<Seq<char>> {
    Seq::new(results.len(), |i: int| ping_line_text(results[i]))
}

/// What is shown of the probes, line by line.
pub fn ping_lines(results: &[ProbeResult]) -> (out: Vec<String>)
    ensures
        texts(out@) == ping_texts(results@),
{
    let mut out: Vec<String> = Vec::new();
    let mut i: usize = 0;
    while i < results.len()
        invariant
            i <= results.len(),
            texts(out@) == ping_texts(results@).take(i as int),
        decreases results.len() - i,
    {
        let ghost before = texts(out@);
        let line = ping_line(&results[i]);
        out.push(line);
        assert(texts(out@) == before.push(ping_texts(results@)[i as int]));
        assert(ping_texts(results@).take(i + 1) == before.push(ping_texts(results@)[i as int]));
        i += 1;
    }
    assert(ping_texts(results@).take(i as int) == ping_texts(results@));
    out
}

/// The recommendation at the end of a diagnosis.
pub fn recommendation(source: SourceKind) -> (out: String)
    ensures
        out@ == "Recommended source: "@ + source.label_text(),
{
    let mut out = "Recommended source: ".to_owned();
    out.append(source.label());
    out
}

/// Hugging Face is chosen whenever it answers within 200 milliseconds, however fast others are.
pub proof fn fast_hugging_face_is_chosen(results: Seq<ProbeResult>, i: int, source: SourceKind)
    requires
        0 <= i < results.len(),
        results[i].source == SourceKind::HuggingFace,
        results[i].latency matches Some(latency) && latency.nanos <= 200_000_000,
    ensures
        is_choice(results, source) <==> source == SourceKind::HuggingFace,
{
    assert(is_preferred(results[i]));
}

/// Otherwise a source is chosen that answered no later than any other, and of several that
/// answered equally fast the one that was probed first.
pub proof fn otherwise_the_fastest_is_chosen(results: Seq<ProbeResult>, source: SourceKind) -> (i:
    int)
    requires
        is_choice(results, source),
        forall|i: int|
            0 <= i < results.len() && (#[trigger] results[i]).source == SourceKind::HuggingFace ==> (
            results[i].latency matches Some(latency) ==> latency.nanos > 200_000_000),
    ensures
        0 <= i < results.len(),
        results[i].source == source,
        results[i].latency is Some,
        forall|j: int|
            0 <= j < results.len() && (#[trigger] results[j]).latency is Some
                ==> results[i].latency->0.nanos <= results[j].latency->0.nanos,
        forall|j: int|
            0 <= j < i && (#[trigger] results[j]).latency is Some ==> results[i].latency->0.nanos
                < results[j].latency->0.nanos,
{
    if exists|i: int| 0 <= i < results.len() && is_preferred(#[trigger] results[i]) {
        let i = choose|i: int| 0 <= i < results.len() && is_preferred(#[trigger] results[i]);
        assert(results[i].source == SourceKind::HuggingFace);
        assert(false);
    }
    choose|i: int| #[trigger] is_first_fastest(results, i) && results[i].source == source
}

/// A source is chosen whenever one answered.
pub proof fn some_answer_gives_a_choice(results: Seq<ProbeResult>, i: int) -> (source: SourceKind)
    requires
        0 <= i < results.len(),
        results[i].latency is Some,
    ensures
        is_choice(results, source),
        !none_available(results),
{
    if exists|i: int| 0 <= i < results.len() && is_preferred(#[trigger] results[i]) {
        SourceKind::HuggingFace
    } else {
        let k = lemma_fastest(results, i);
        assert(is_first_fastest(results, k) && results[k].source == results[k].source);
        results[k].source
    }
}

/// One of the sources that answered is the first of the fastest.
proof fn lemma_fastest(results: Seq<ProbeResult>, i: int) -> (k: int)
    requires
        0 <= i < results.len(),
        results[i].latency is Some,
    ensures
        is_first_fastest(results, k),
    decreases results.len(),
{
    let last = results.len() - 1;
    let before = results.drop_last();
    if exists|j: int| 0 <= j < last && (#[trigger] before[j]).latency is Some {
        let j = choose|j: int| 0 <= j < last && (#[trigger] before[j]).latency is Some;
        let k = lemma_fastest(before, j);
        let best = if results[last].latency is Some && results[last].latency->0.nanos
            < results[k].latency->0.nanos {
            last
        } else {
            k
        };
        assert forall|j: int|
            0 <= j < results.len() && (#[trigger] results[j]).latency is Some implies {
            &&& results[best].latency->0.nanos <= results[j].latency->0.nanos
            &&& j < best ==> results[best].latency->0.nanos < results[j].latency->0.nanos
        } by {
            if j < last {
                assert(before[j] == results[j]);
            }
        }
        best
    } else {
        assert forall|j: int|
            0 <= j < results.len() && (#[trigger] results[j]).latency is Some implies j == last by {
            if j < last {
                assert(before[j] == results[j]);
            }
        }
        last
    }
}

/// A model is looked for at every source, a dataset at Hugging Face and its mirror, and none of
/// them is asked twice.
pub proof fn sources_are_probed_once(kind: SourceKind)
    ensures
        probed(RepoType::Model).contains(kind),
        probed(RepoType::Dataset).contains(kind) <==> kind != SourceKind::ModelScope,
        probed(RepoType::Model).len() == 3,
        probed(RepoType::Dataset).len() == 2,
{
    let all = probed(RepoType::Model);
    assert(all[0] == SourceKind::HuggingFace);
    assert(all[1] == SourceKind::HfMirror);
    assert(all[2] == SourceKind::ModelScope);
    let some = probed(RepoType::Dataset);
    assert(some[0] == SourceKind::HuggingFace);
    assert(some[1] == SourceKind::HfMirror);
}

/// A source that the user names is used, and only `auto` leaves the choice open.
pub proof fn named_sources_are_used(choice: SourceChoice)
    ensures
        named_source(choice) is None <==> choice == SourceChoice::Auto,
        named_source(SourceChoice::Hf) == Some(SourceKind::HuggingFace),
        named_source(SourceChoice::HfMirror) == Some(SourceKind::HfMirror),
        named_source(SourceChoice::Modelscope) == Some(SourceKind::ModelScope),
{
}

/// An answer shows that a source can be used if it is a success, a redirection, or says only
/// that the method is not offered.
pub proof fn usable_answers(code: u16)
    ensures
        probe_succeeds(code) <==> 200 <= code < 400 || code == 405,
{
}

/// The line for a source starts with its name and says in whole milliseconds how long it took,
/// or why it is not available.
pub proof fn ping_lines_tell_the_result(result: ProbeResult)
    ensures
        starts_with(ping_line_text(result), "* "@ + result.source.label_text()),
        result.latency matches Some(latency) ==> exists|millis: nat|
            {
                &&& ping_line_text(result) == "* "@ + result.source.label_text() + ": "@
                    + #[trigger] decimal(millis) + "ms (available)"@
                &&& millis * 1_000_000 <= latency.nanos < (millis + 1) * 1_000_000
            },
        result.latency is None ==> (result.error matches Some(error) ==> ping_line_text(result)
            == "* "@ + result.source.label_text() + ": unavailable ("@ + error@ + ")"@),
{
    let start = "* "@ + result.source.label_text();
    assert(ping_line_text(result).take(start.len() as int) =~= start);
    if let Some(latency) = result.latency {
        let millis = (latency.nanos as int / 1_000_000) as nat;
        assert(ping_line_text(result) == start + ": "@ + decimal(millis) + "ms (available)"@);
    }
}

/// A latency is the time that a usable answer took, and no other answer has one.
pub proof fn latencies_are_of_usable_answers(code: u16, elapsed: Latency)
    ensures
        200 <= code < 400 || code == 405 ==> answered_latency(code, elapsed) == Some(elapsed),
        !(200 <= code < 400 || code == 405) ==> answered_latency(code, elapsed) is None,
{
}

/// A number of milliseconds comes back from its span of time, and any span is cut to whole
/// milliseconds.
pub proof fn spans_are_counted_in_milliseconds(millis: u64, nanos: nat)
    ensures
        whole_millis(nanos_in(millis)) == millis,
        0 <= nanos - 1_000_000 * whole_millis(nanos as int) < 1_000_000,
{
}

} // verus!
