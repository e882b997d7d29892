use mget::download::checksum::{Algorithm, FileChecksum};
use mget::download::chunks::{chunkable, make_chunks, ByteRange};
use mget::download::content_range::{
    closed_range, open_range, parse_content_range_bounds, parse_content_range_total,
    probe_content_length, supports_ranges,
};
use mget::download::preflight::{
    needed_space, preflight_disk_space, task_remaining_size, Remaining,
};
use mget::download::progress::{
    dec_bars, exclude_existing_bytes, inc_bars, restore_existing_bytes, restore_range_progress,
    BarChange,
};
use mget::download::range::{
    check_chunk_reply, pending_chunks, plan_range, range_completed_bytes, range_remaining_bytes,
    refused_range, RangeState, DEFAULT_CHUNK_SIZE,
};
use mget::download::retry::{after_failure, RetryStep};
use mget::download::steps::{
    fallback_warning, next_step, sanitize_range_resume_state, threads_for_chunks, FileStep, Outcome,
};
use mget::download::stream::{
    accept_stream_reply, begin_stream, ignored_resume_warning, kept_bytes, stream_range,
    StreamReply, StreamStart,
};
use mget::download::verify::{
    compare_checksum, corrupt_target_warning, measure_for, shows_damage, unchecked_warning,
    verify_file, Measure, Measured,
};
use mget::error::MgetError;
use mget::source::RemoteFile;

fn file() -> RemoteFile {
    RemoteFile {
        path: "file.bin".into(),
        size: None,
        sha256: None,
        md5: None,
    }
}

#[test]
fn makes_expected_chunks() {
    let chunks = make_chunks(10, 4);
    assert_eq!(chunks.len(), 3);
    assert_eq!(chunks[0].len(), 4);
    assert_eq!(chunks[2].start, 8);
    assert_eq!(chunks[2].end, 9);
}

#[test]
fn chunks_cover_every_byte_once() {
    for size in 0..40_u64 {
        for chunk_size in 1..12_u64 {
            let chunks = make_chunks(size, chunk_size);
            let mut next = 0;
            for chunk in &chunks {
                assert_eq!(chunk.start, next);
                assert!(chunk.len() <= chunk_size);
                next = chunk.end + 1;
            }
            assert_eq!(next, size);
        }
    }
    assert!(make_chunks(0, 0).is_empty());
}

#[test]
fn chunks_at_the_end_of_the_numbers() {
    assert!(chunkable(u64::MAX, 1));
    assert!(chunkable(u64::MAX, u64::MAX));
    assert!(!chunkable(u64::MAX, 2));
    assert!(!chunkable(u64::MAX, 1 << 63));
    assert!(chunkable(0, 0));
    assert!(!chunkable(1, 0));
    let chunks = make_chunks(u64::MAX, u64::MAX);
    assert_eq!(chunks, vec![ByteRange { start: 0, end: u64::MAX - 1 }]);
}

#[test]
fn content_ranges_are_read() {
    assert_eq!(parse_content_range_bounds("bytes 6-10/11"), Some((6, 10)));
    assert_eq!(parse_content_range_bounds("bytes 0-0/*"), Some((0, 0)));
    assert_eq!(parse_content_range_bounds("bytes +6-10/11"), Some((6, 10)));
    for value in ["6-10/11", "bytes 6-10", "bytes 610/11", "bytes */11", "bytes a-b/c", ""] {
        assert_eq!(parse_content_range_bounds(value), None, "{value}");
    }
    assert_eq!(parse_content_range_total("bytes 6-10/11"), Some(11));
    assert_eq!(parse_content_range_total("a/b/12"), Some(12));
    for value in ["bytes 6-10/*", "11", "bytes 0-1/", "bytes 0-1/18446744073709551616"] {
        assert_eq!(parse_content_range_total(value), None, "{value}");
    }
    let text = format!("bytes {}-{}/{}", 0, u64::MAX - 1, u64::MAX);
    assert_eq!(parse_content_range_bounds(&text), Some((0, u64::MAX - 1)));
    assert_eq!(parse_content_range_total(&text), Some(u64::MAX));
}

#[test]
fn ranges_are_written() {
    assert_eq!(open_range(6), "bytes=6-");
    assert_eq!(closed_range(0, 67_108_863), "bytes=0-67108863");
    assert_eq!(stream_range(0), None);
    assert_eq!(stream_range(6).as_deref(), Some("bytes=6-"));
}

#[test]
fn probes_tell_the_length() {
    assert_eq!(probe_content_length(200, Some("12"), Some("bytes 0-0/9")), Some(12));
    assert_eq!(probe_content_length(206, Some("x"), Some("bytes 0-0/9")), Some(9));
    assert_eq!(probe_content_length(200, None, None), None);
    assert_eq!(probe_content_length(404, Some("12"), None), None);
    assert_eq!(probe_content_length(302, Some("12"), None), None);
}

#[test]
fn servers_tell_whether_they_send_parts() {
    assert!(supports_ranges(206, None));
    assert!(supports_ranges(200, Some("Bytes")));
    assert!(!supports_ranges(200, Some("none")));
    assert!(!supports_ranges(200, None));
}

#[test]
fn a_stream_goes_on_where_it_stopped() {
    let start = begin_stream(Some(6), Some(11));
    assert_eq!(start, StreamStart::Fetch { remove_part: false, offset: 6 });
    let reply = accept_stream_reply("file.bin", 6, 206, Some("bytes 6-10/11"));
    assert!(matches!(reply, StreamReply::Append));
    assert_eq!(kept_bytes(&reply, 6), 6);
}

#[test]
fn a_stream_starts_anew_when_the_server_ignores_the_range() {
    let start = begin_stream(Some(6), None);
    assert_eq!(start, StreamStart::Fetch { remove_part: false, offset: 6 });
    let reply = accept_stream_reply("file.bin", 6, 200, None);
    assert!(matches!(reply, StreamReply::Restart { ignored: true }));
    assert_eq!(kept_bytes(&reply, 6), 0);
    assert_eq!(
        ignored_resume_warning("file.bin"),
        "warning: server ignored resume for file.bin; restarting partial download"
    );
    let reply = accept_stream_reply("file.bin", 0, 206, Some("bytes 3-4/5"));
    assert!(matches!(reply, StreamReply::Restart { ignored: false }));
}

#[test]
fn a_stream_refuses_another_part_than_the_one_asked_for() {
    for range in [Some("bytes 0-4/11"), Some("garbage"), None] {
        match accept_stream_reply("file.bin", 6, 206, range) {
            StreamReply::Refuse(error) => assert_eq!(
                error.message(),
                "server returned unexpected content-range for file.bin"
            ),
            other => panic!("{other:?}"),
        }
    }
}

#[test]
fn a_stream_looks_at_the_partial_file_first() {
    assert_eq!(begin_stream(Some(11), Some(11)), StreamStart::Complete);
    assert_eq!(
        begin_stream(Some(12), Some(11)),
        StreamStart::Fetch { remove_part: true, offset: 0 }
    );
    assert_eq!(begin_stream(None, Some(11)), StreamStart::Fetch { remove_part: false, offset: 0 });
    assert_eq!(begin_stream(None, None), StreamStart::Fetch { remove_part: false, offset: 0 });
}

#[test]
fn a_chunk_is_accepted_only_as_asked_for() {
    let chunk = ByteRange { start: 0, end: 3 };
    assert!(check_chunk_reply("file.bin", chunk, 206, Some("bytes 0-3/8")).is_ok());
    let error = check_chunk_reply("file.bin", chunk, 200, None).unwrap_err();
    assert_eq!(
        error.message(),
        "server did not honor range request for file.bin: expected 206, got 200 OK"
    );
    for range in [Some("bytes 0-2/8"), Some("bytes 1-3/8"), None] {
        let error = check_chunk_reply("file.bin", chunk, 206, range).unwrap_err();
        assert_eq!(
            error.message(),
            "server returned unexpected content-range for file.bin"
        );
    }
    assert!(refused_range("f", "503 x").message().ends_with("expected 206, got 503 x"));
}

fn record(completed: &[bool]) -> Option<RangeState> {
    Some(RangeState {
        completed: completed.to_vec(),
    })
}

#[test]
fn records_are_fitted_and_marked() {
    assert_eq!(RangeState::load(None, 2).completed, vec![false, false]);
    assert_eq!(RangeState::load(record(&[true]), 3).completed, vec![true, false, false]);
    assert_eq!(RangeState::load(record(&[false, true, true]), 2).completed, vec![false, true]);
    let state = RangeState::mark_complete(record(&[true]), 3, 2);
    assert_eq!(state.completed, vec![true, false, true]);
    assert_eq!(RangeState::mark_complete(None, 1, 5).completed, vec![false]);
    let mut state = RangeState::load(None, 2);
    state.mark(1);
    state.mark(1);
    assert_eq!(state.completed, vec![false, true]);
    assert_eq!(pending_chunks(&vec![true, false, true, false]), vec![1, 3]);
    assert!(pending_chunks(&vec![true]).is_empty());
}

#[test]
fn a_ranged_download_goes_on_from_its_record() {
    let size = 4 * DEFAULT_CHUNK_SIZE + 5;
    let plan = plan_range(size, record(&[true, false, true]));
    assert_eq!(plan.chunks.len(), 5);
    assert_eq!(plan.chunks[4].len(), 5);
    assert_eq!(plan.pending, vec![1, 3, 4]);
    assert_eq!(plan.completed_bytes, 2 * DEFAULT_CHUNK_SIZE);
    assert_eq!(range_completed_bytes(size, record(&[false, false, false, false, true])), 5);
    let left = range_remaining_bytes(size, record(&[false, false, false, false, true, true]));
    assert_eq!(left, 4 * DEFAULT_CHUNK_SIZE);
    assert_eq!(range_remaining_bytes(size, None), size);
}

#[test]
fn only_what_is_missing_needs_space() {
    assert_eq!(task_remaining_size(Some(10), None, Some(4), false), Remaining::Bytes(6));
    assert_eq!(task_remaining_size(Some(10), None, None, true), Remaining::Bytes(10));
    assert_eq!(task_remaining_size(Some(10), None, Some(10), true), Remaining::InRecord);
    assert_eq!(task_remaining_size(Some(10), None, Some(10), false), Remaining::Bytes(0));
    assert_eq!(task_remaining_size(Some(10), None, Some(12), true), Remaining::Bytes(0));
    assert_eq!(task_remaining_size(Some(10), Some(10), None, false), Remaining::Bytes(0));
    assert_eq!(task_remaining_size(Some(10), Some(9), Some(4), false), Remaining::Bytes(10));
    assert_eq!(task_remaining_size(None, None, Some(4), false), Remaining::Bytes(0));
}

#[test]
fn too_little_space_is_refused() {
    assert_eq!(needed_space(&vec![1, 2, 3]), Some(6));
    assert_eq!(needed_space(&vec![u64::MAX, 0]), Some(u64::MAX));
    assert_eq!(needed_space(&vec![u64::MAX, 1]), None);
    assert!(preflight_disk_space("/out", 5, 5).is_ok());
    assert!(preflight_disk_space("/out", 0, 0).is_ok());
    assert_eq!(
        preflight_disk_space("/out", 6, 5).unwrap_err().message(),
        "not enough free disk space at /out: need 6 bytes, available 5 bytes"
    );
}

#[test]
fn checksums_of_known_texts() {
    let hash = FileChecksum::start(Algorithm::Sha256).update(b"abc");
    assert_eq!(
        hash.finish(),
        "ba7816bf8f01cfea414140de5dae2223b00361a396177a9cb410ff61f20015ad"
    );
    let hash = FileChecksum::start(Algorithm::Md5).update(b"abc");
    assert_eq!(hash.finish(), "900150983cd24fb0d6963f7d28e17f72");
    assert_eq!(
        FileChecksum::start(Algorithm::Sha256).finish(),
        "e3b0c44298fc1c149afbf4c8996fb92427ae41e4649b934ca495991b7852b855"
    );
    assert_eq!(
        FileChecksum::start(Algorithm::Md5).finish(),
        "d41d8cd98f00b204e9800998ecf8427e"
    );
}

#[test]
fn blocks_do_not_change_a_checksum() {
    let bytes: Vec<u8> = (0..1000_u32).map(|n| (n % 251) as u8).collect();
    for algorithm in [Algorithm::Sha256, Algorithm::Md5] {
        let whole = FileChecksum::start(algorithm).update(&bytes).finish();
        for len in [1, 63, 64, 65, 999] {
            let mut hash = FileChecksum::start(algorithm);
            for block in bytes.chunks(len) {
                assert!(hash.has_room(block.len()));
                hash = hash.update(block);
            }
            assert_eq!(hash.finish(), whole);
        }
    }
}

#[test]
fn the_best_measure_is_taken() {
    let mut remote = file();
    assert_eq!(measure_for(&remote), Measure::Nothing);
    assert!(verify_file(&remote, "t", Measured::Nothing).is_ok());
    remote.size = Some(10);
    assert_eq!(measure_for(&remote), Measure::Size);
    remote.md5 = Some("d41d".into());
    assert_eq!(measure_for(&remote), Measure::Checksum(Algorithm::Md5));
    assert!(verify_file(&remote, "t", Measured::Checksum("D41D".into())).is_ok());
    remote.sha256 = Some("E3b0".into());
    assert_eq!(measure_for(&remote), Measure::Checksum(Algorithm::Sha256));
    assert!(verify_file(&remote, "t", Measured::Checksum("e3B0".into())).is_ok());
    let error = verify_file(&remote, "t", Measured::Checksum("d41d".into())).unwrap_err();
    assert_eq!(error.message(), "checksum mismatch for t: expected E3b0, got d41d");
    assert!(shows_damage(&error));
    assert!(compare_checksum("t", "ab", "AB".into()).is_ok());
}

#[test]
fn a_wrong_size_is_damage() {
    let remote = RemoteFile {
        size: Some(10),
        ..file()
    };
    assert!(verify_file(&remote, "t", Measured::Size(10)).is_ok());
    let error = verify_file(&remote, "t", Measured::Size(5)).unwrap_err();
    assert!(matches!(&error, MgetError::SizeMismatch { path, expected: 10, actual: 5 } if path == "t"));
    assert!(shows_damage(&error));
    assert!(!shows_damage(&MgetError::Io("x".into())));
    assert_eq!(error.message(), "size mismatch for t: expected 10 bytes, got 5 bytes");
    assert_eq!(
        unchecked_warning("f"),
        "warning: no checksum or size metadata for f; skipped integrity check"
    );
    assert_eq!(
        corrupt_target_warning("f"),
        "warning: existing target failed integrity check for f; re-downloading"
    );
}

fn ok() -> Outcome {
    Outcome::Finished(Ok(()))
}

fn failed() -> Outcome {
    Outcome::Finished(Err(MgetError::Message("no".into())))
}

const LARGE: Option<u64> = Some(268_435_456);

#[test]
fn a_complete_target_is_left_alone() {
    let step = next_step(FileStep::InspectTarget, Outcome::Target(true), LARGE, 6);
    assert!(matches!(step, FileStep::CheckTarget));
    let step = next_step(step, ok(), LARGE, 6);
    assert!(matches!(step, FileStep::Done { skipped: true }));
}

#[test]
fn a_corrupt_target_is_removed_and_fetched_again() {
    let damage = MgetError::SizeMismatch {
        path: "t".into(),
        expected: 10,
        actual: 5,
    };
    let step = next_step(FileStep::CheckTarget, Outcome::Finished(Err(damage)), Some(10), 6);
    assert!(matches!(step, FileStep::RemoveTarget));
    let step = next_step(step, ok(), Some(10), 6);
    assert!(matches!(step, FileStep::MakeParent));
    let step = next_step(step, ok(), Some(10), 6);
    assert!(matches!(step, FileStep::ProbeRanges));
    let step = next_step(step, Outcome::Ranges(true), Some(10), 6);
    assert!(matches!(step, FileStep::FetchStream));
    let step = next_step(step, ok(), Some(10), 6);
    assert!(matches!(step, FileStep::CheckDownload));
    let step = next_step(step, ok(), Some(10), 6);
    assert!(matches!(step, FileStep::CleanUp));
    let step = next_step(step, ok(), Some(10), 6);
    assert!(matches!(step, FileStep::Done { skipped: false }));
    let step = next_step(FileStep::CheckTarget, failed(), Some(10), 6);
    assert!(matches!(step, FileStep::Fail(MgetError::Message(text)) if text == "no"));
}

#[test]
fn a_large_file_falls_back_to_a_fresh_stream() {
    let step = next_step(FileStep::ProbeRanges, Outcome::Ranges(true), LARGE, 6);
    assert!(matches!(step, FileStep::InspectTemp));
    let nothing = Outcome::Temp {
        part_len: None,
        state_exists: false,
    };
    let step = next_step(step, nothing, LARGE, 6);
    assert!(matches!(step, FileStep::FetchRanges { threads: 2 }));
    let step = next_step(step, failed(), LARGE, 6);
    assert!(matches!(step, FileStep::DropTemp));
    let step = next_step(step, ok(), LARGE, 6);
    assert!(matches!(step, FileStep::FetchStream));
    assert!(matches!(next_step(step, failed(), LARGE, 6), FileStep::Fail(_)));
    assert_eq!(
        fallback_warning("file.bin", &MgetError::Io("disk".into())),
        "warning: ranged download failed for file.bin; falling back to stream: I/O error: disk"
    );
    for (ranges, size) in [(false, LARGE), (true, Some(268_435_455)), (true, None)] {
        let step = next_step(FileStep::ProbeRanges, Outcome::Ranges(ranges), size, 6);
        assert!(matches!(step, FileStep::FetchStream));
    }
}

#[test]
fn a_stale_record_is_removed_first() {
    for part_len in [None, Some(5)] {
        let temp = Outcome::Temp {
            part_len,
            state_exists: true,
        };
        let step = next_step(FileStep::InspectTemp, temp, LARGE, 1);
        assert!(matches!(step, FileStep::DropResume));
        let step = next_step(step, ok(), LARGE, 1);
        assert!(matches!(step, FileStep::FetchRanges { threads: 1 }));
    }
    let good = Outcome::Temp {
        part_len: LARGE,
        state_exists: true,
    };
    let step = next_step(FileStep::InspectTemp, good, LARGE, 2);
    assert!(matches!(step, FileStep::FetchRanges { threads: 2 }));
    let stream = Outcome::Temp {
        part_len: Some(1),
        state_exists: false,
    };
    let step = next_step(FileStep::InspectTemp, stream, LARGE, 2);
    assert!(matches!(step, FileStep::FetchStream));
    assert!(sanitize_range_resume_state(None, true, 10));
    assert!(sanitize_range_resume_state(Some(5), true, 10));
    assert!(!sanitize_range_resume_state(Some(10), true, 10));
    assert!(!sanitize_range_resume_state(Some(5), false, 10));
    assert_eq!(threads_for_chunks(0), 1);
}

#[test]
fn every_failure_ends_the_download_with_itself() {
    for step in [
        FileStep::RemoveTarget,
        FileStep::MakeParent,
        FileStep::DropResume,
        FileStep::DropTemp,
        FileStep::FetchStream,
        FileStep::CheckDownload,
        FileStep::CleanUp,
    ] {
        let next = next_step(step, failed(), LARGE, 6);
        assert!(matches!(next, FileStep::Fail(MgetError::Message(text)) if text == "no"));
    }
    let step = next_step(FileStep::InspectTarget, Outcome::Target(false), LARGE, 6);
    assert!(matches!(step, FileStep::MakeParent));
}

#[test]
fn a_download_is_tried_four_times() {
    let error = MgetError::Network("reset".into());
    for (attempt, wait) in [(0, 300), (1, 600), (2, 1200)] {
        assert!(matches!(
            after_failure(attempt, &error),
            RetryStep::Wait { millis } if millis == wait
        ));
    }
    match after_failure(3, &error) {
        RetryStep::GiveUp(error) => assert_eq!(
            error.message(),
            "download failed after retries: network request failed: reset"
        ),
        other => panic!("{other:?}"),
    }
}

#[test]
fn bars_change_only_for_bytes() {
    assert!(exclude_existing_bytes(0).is_empty());
    assert!(restore_existing_bytes(0).is_empty());
    assert!(dec_bars(0).is_empty());
    assert_eq!(inc_bars(0), vec![BarChange::Advance(0)]);
    assert_eq!(
        exclude_existing_bytes(4),
        vec![BarChange::Shorten(4), BarChange::ResetEta]
    );
    assert_eq!(
        restore_range_progress(4, 2),
        vec![BarChange::Lengthen(4), BarChange::ResetEta, BarChange::Back(2)]
    );
    assert!(restore_range_progress(0, 0).is_empty());
}
