use std::path::Path;

use mget::cache::{ensure_relative_repo_path, sanitize_component};
use mget::download::chunks::make_chunks;
use mget::download::content_range::{parse_content_range_bounds, parse_content_range_total};
use mget::download::plan::DownloadPlan;
use mget::download::preflight::{task_remaining_size, Remaining};
use mget::download::progress::{
    exclude_existing_bytes, inc_bars, restore_range_progress, BarChange,
};
use mget::download::range::{pending_chunks, sum_bytes, RangeState};
use mget::download::steps::{next_step, FileStep, Outcome};
use mget::download::stream::{accept_stream_reply, begin_stream, StreamReply, StreamStart};
use mget::error::MgetError;
use mget::paths::{join_path, Platform};
use mget::source::huggingface::HuggingFaceSource;
use mget::source::modelscope::ModelScopeSource;
use mget::source::{ModelSource, RemoteFile, RepoType, SourceKind};

fn file(path: &str) -> RemoteFile {
    RemoteFile {
        path: path.into(),
        size: None,
        sha256: None,
        md5: None,
    }
}

const PATHS: [&str; 16] = [
    "a", "a/b", "a%2Fb", "a//b", "a b", "a+b", "a%20b", "A", "é", "%C3%A9", "", "/", "a?b", "a&b",
    "a~b", "a#b",
];

#[test]
fn different_files_have_different_addresses() {
    let hf = HuggingFaceSource::new(SourceKind::HuggingFace, None);
    let ms = ModelScopeSource::new(None);
    let model = hf.resolve_model("o/m", RepoType::Model, "main").unwrap();
    for a in PATHS {
        for b in PATHS {
            let same = hf.download_url(&model, &file(a)) == hf.download_url(&model, &file(b));
            assert_eq!(same, a == b, "{a} {b}");
            let same = ms.download_url(&model, &file(a)) == ms.download_url(&model, &file(b));
            assert_eq!(same, a == b, "{a} {b}");
        }
    }
}

#[test]
fn accepted_paths_stay_below_the_root() {
    for root in ["out", "/out/", "./out", "/"] {
        for path in ["a", "./a", "a/./b", "a//b", "..a", "a../b", "...", "", "../a", "a/..", "/a"] {
            if let Ok(relative) = ensure_relative_repo_path(path, Platform::Unix) {
                let target = join_path(root, &relative, Platform::Unix);
                assert!(Path::new(&target).starts_with(root), "{root} {path}");
                assert!(!Path::new(path).components().any(|step| step.as_os_str() == ".."));
            } else {
                assert!(path.starts_with('/') || path.contains(".."));
            }
        }
    }
}

#[test]
fn accepted_paths_stay_below_the_root_on_windows() {
    for root in ["out", r"C:\out", r"\\s\h\out", r"\\?\C:\out", r"\\?\C:\out\"] {
        for path in ["a", r"a\b", "a/b", r".\a", "..a", r"a..\b"] {
            let relative = ensure_relative_repo_path(path, Platform::Windows).unwrap();
            let target = join_path(root, &relative, Platform::Windows);
            let start = root.trim_end_matches('\\');
            assert!(target.starts_with(&format!("{start}\\")), "{root} {path}");
            assert!(!target.split(['/', '\\']).any(|step| step == ".."));
        }
    }
}

#[test]
fn names_stay_when_they_are_plain() {
    for name in ["main", "v1.0", "a b", "é"] {
        assert_eq!(sanitize_component(name), name);
    }
    let special = sanitize_component("/\\:*?\"<>|");
    assert_eq!(special, "_________");
    assert_eq!(sanitize_component(&special), special);
}

#[test]
fn the_files_of_a_task_are_three() {
    let source = HuggingFaceSource::new(SourceKind::HuggingFace, None);
    let model = source.resolve_model("o/m", RepoType::Model, "main").unwrap();
    let names = ["x", "x.bin", ".x", "x.", "d/x.y/", "x.mget-part", "x.mget-state.json"];
    let files = names.into_iter().map(file).collect();
    let plan = DownloadPlan::new(&source, &model, files, "out".into(), Platform::Unix).unwrap();
    for task in &plan.files {
        let stem = task.target.trim_end_matches('/');
        assert_eq!(task.part, format!("{stem}.mget-part"));
        assert_eq!(task.state, format!("{stem}.mget-state.json"));
        assert_ne!(task.part, task.target);
        assert_ne!(task.state, task.target);
    }
}

#[test]
fn content_ranges_come_back() {
    for (start, end, total) in [(0, 0, 1), (6, 10, 11), (0, u64::MAX - 1, u64::MAX)] {
        let text = format!("bytes {start}-{end}/{total}");
        assert_eq!(parse_content_range_bounds(&text), Some((start, end)));
        assert_eq!(parse_content_range_total(&text), Some(total));
    }
}

#[test]
fn complete_and_missing_make_up_the_file() {
    for size in [0, 1, 9, 10, 11, 25] {
        let chunks = make_chunks(size, 5);
        for bits in 0..(1_u32 << chunks.len()) {
            let completed: Vec<bool> = (0..chunks.len()).map(|i| bits >> i & 1 == 1).collect();
            let done = sum_bytes(&chunks, &completed, true);
            let left = sum_bytes(&chunks, &completed, false);
            assert_eq!(done + left, size);
        }
    }
}

#[test]
fn chunks_in_any_order_give_the_content() {
    let content: Vec<u8> = (0..23).collect();
    let chunks = make_chunks(23, 4);
    for start in 0..(1_u32 << chunks.len()) {
        let stored: Vec<bool> = (0..chunks.len()).map(|i| start >> i & 1 == 1).collect();
        let mut disk = vec![0xff_u8; 23];
        for (chunk, done) in chunks.iter().zip(&stored) {
            let (from, to) = (chunk.start as usize, chunk.end as usize + 1);
            if *done {
                disk[from..to].copy_from_slice(&content[from..to]);
            }
        }
        let mut state = RangeState { completed: stored };
        let mut order = pending_chunks(&state.completed);
        order.reverse();
        let turn = (start as usize) % order.len().max(1);
        order.rotate_left(turn);
        for index in order {
            let (from, to) = (chunks[index].start as usize, chunks[index].end as usize + 1);
            disk[from..to].copy_from_slice(&content[from..to]);
            state = RangeState::mark_complete(Some(state), chunks.len(), index);
        }
        assert_eq!(disk, content);
        assert!(pending_chunks(&state.completed).is_empty());
    }
}

#[test]
fn marks_can_come_in_any_order() {
    for (i, j) in [(0, 1), (2, 2), (1, 9)] {
        let mut a = RangeState::load(None, 3);
        a.mark(i);
        a.mark(j);
        let mut b = RangeState::load(None, 3);
        b.mark(j);
        b.mark(i);
        b.mark(i);
        assert_eq!(a.completed, b.completed);
    }
}

fn streamed(part: &[u8], content: &[u8], honors_range: bool) -> Vec<u8> {
    let size = content.len() as u64;
    match begin_stream(Some(part.len() as u64), Some(size)) {
        StreamStart::Complete => part.to_vec(),
        StreamStart::Fetch {
            remove_part,
            offset,
        } => {
            let mut disk = if remove_part { vec![] } else { part.to_vec() };
            let partial = honors_range && offset > 0;
            let range = format!("bytes {}-{}/{}", offset, size - 1, size);
            let (code, header, body) = if partial {
                (206, Some(range.as_str()), &content[offset as usize..])
            } else {
                (200, None, content)
            };
            match accept_stream_reply("f", offset, code, header) {
                StreamReply::Append => disk.extend_from_slice(body),
                StreamReply::Restart { .. } => disk = body.to_vec(),
                StreamReply::Refuse(error) => panic!("{}", error.message()),
            }
            disk
        }
    }
}

#[test]
fn streams_give_the_content() {
    let content = b"hello world";
    for len in 0..=content.len() {
        for honors_range in [false, true] {
            assert_eq!(streamed(&content[..len], content, honors_range), content);
        }
    }
    assert_eq!(streamed(b"much too long a part", content, true), content);
    assert_eq!(streamed(b"stale ", b"fresh contents", false), b"fresh contents");
}

fn outcomes(step: &FileStep) -> Vec<Outcome> {
    let damage = MgetError::SizeMismatch {
        path: "t".into(),
        expected: 1,
        actual: 2,
    };
    match step {
        FileStep::InspectTarget => vec![Outcome::Target(false), Outcome::Target(true)],
        FileStep::ProbeRanges => vec![Outcome::Ranges(false), Outcome::Ranges(true)],
        FileStep::InspectTemp => vec![
            Outcome::Temp { part_len: None, state_exists: false },
            Outcome::Temp { part_len: None, state_exists: true },
            Outcome::Temp { part_len: Some(3), state_exists: false },
            Outcome::Temp { part_len: Some(3), state_exists: true },
            Outcome::Temp { part_len: Some(268_435_456), state_exists: true },
        ],
        FileStep::Done { .. } | FileStep::Fail(_) => vec![],
        _ => vec![
            Outcome::Finished(Ok(())),
            Outcome::Finished(Err(MgetError::Message("no".into()))),
            Outcome::Finished(Err(damage)),
        ],
    }
}

fn name(step: &FileStep) -> &'static str {
    match step {
        FileStep::InspectTarget => "inspect",
        FileStep::CheckTarget => "check",
        FileStep::RemoveTarget => "remove",
        FileStep::MakeParent => "parent",
        FileStep::ProbeRanges => "probe",
        FileStep::InspectTemp => "temp",
        FileStep::DropResume => "drop-resume",
        FileStep::FetchRanges { .. } => "ranges",
        FileStep::DropTemp => "drop",
        FileStep::FetchStream => "stream",
        FileStep::CheckDownload => "check-download",
        FileStep::CleanUp => "clean",
        FileStep::Done { .. } => "done",
        FileStep::Fail(_) => "fail",
    }
}

fn copy(step: &FileStep) -> FileStep {
    match step {
        FileStep::InspectTarget => FileStep::InspectTarget,
        FileStep::CheckTarget => FileStep::CheckTarget,
        FileStep::RemoveTarget => FileStep::RemoveTarget,
        FileStep::MakeParent => FileStep::MakeParent,
        FileStep::ProbeRanges => FileStep::ProbeRanges,
        FileStep::InspectTemp => FileStep::InspectTemp,
        FileStep::DropResume => FileStep::DropResume,
        FileStep::FetchRanges { threads } => FileStep::FetchRanges { threads: *threads },
        FileStep::DropTemp => FileStep::DropTemp,
        FileStep::FetchStream => FileStep::FetchStream,
        FileStep::CheckDownload => FileStep::CheckDownload,
        FileStep::CleanUp => FileStep::CleanUp,
        FileStep::Done { skipped } => FileStep::Done { skipped: *skipped },
        FileStep::Fail(error) => FileStep::Fail(MgetError::Message(error.message())),
    }
}

fn walk(step: FileStep, before: &mut Vec<(&'static str, bool)>, ends: &mut usize) {
    let choices = outcomes(&step);
    if choices.is_empty() {
        *ends += 1;
        assert!(before.len() < 13);
        let names: Vec<&str> = before.iter().map(|(name, _)| *name).collect();
        if name(&step) == "done" {
            let checked = before.iter().rposition(|(name, ok)| *ok && name.starts_with("check"));
            let after = &names[checked.unwrap() + 1..];
            assert!(!after.iter().any(|name| ["remove", "ranges", "stream"].contains(name)));
        }
        if let (Some(i), Some(j)) = (
            names.iter().position(|name| *name == "ranges"),
            names.iter().position(|name| *name == "stream"),
        ) {
            assert_eq!(j, i + 2);
            assert_eq!(before[i + 1], ("drop", true));
        }
        return;
    }
    for outcome in choices {
        let ok = matches!(outcome, Outcome::Finished(Ok(())));
        before.push((name(&step), ok));
        let next = next_step(copy(&step), outcome, Some(268_435_456), 4);
        walk(next, before, ends);
        before.pop();
    }
}

#[test]
fn every_run_ends_and_is_checked() {
    let mut ends = 0;
    walk(FileStep::InspectTarget, &mut vec![], &mut ends);
    assert!(ends > 50);
}

#[test]
fn a_failed_ranged_download_leaves_no_trace_on_the_bar() {
    let mut bar = (1000_u64, 70_u64);
    let mut changes = exclude_existing_bytes(300);
    for block in [5, 0, 60] {
        changes.extend(inc_bars(block));
    }
    changes.extend(restore_range_progress(300, 65));
    for change in changes {
        match change {
            BarChange::Shorten(amount) => bar.0 -= amount,
            BarChange::Lengthen(amount) => bar.0 += amount,
            BarChange::Advance(amount) => bar.1 += amount,
            BarChange::Back(amount) => bar.1 -= amount,
            BarChange::ResetEta => {}
        }
    }
    assert_eq!(bar, (1000, 70));
}

#[test]
fn no_file_needs_more_than_its_size() {
    for target in [None, Some(0), Some(10), Some(11)] {
        for part in [None, Some(0), Some(9), Some(10), Some(99)] {
            for state in [false, true] {
                if let Remaining::Bytes(bytes) = task_remaining_size(Some(10), target, part, state) {
                    assert!(bytes <= 10);
                }
            }
        }
    }
}
