use mget::download::display::{
    display_path, done_message, download_summary, downloading_message, finished_message,
    format_bytes, has_detail_bar, mapped_notice,
};
use mget::error::MgetError;
use mget::number::{decimal_text, parse_u64};
use mget::source::{RepoType, ResolvedModel, SourceKind};
use mget::text::{comes_before, eq_ignore_case, join_texts, replace_char, split_text};

fn in_floats(bytes: u64) -> String {
    let units = ["B", "KiB", "MiB", "GiB", "TiB"];
    let mut value = bytes as f64;
    let mut unit = 0;
    while value >= 1024.0 && unit < units.len() - 1 {
        value /= 1024.0;
        unit += 1;
    }
    if unit == 0 {
        format!("{} {}", bytes, units[unit])
    } else {
        format!("{value:.2} {}", units[unit])
    }
}

#[test]
fn sizes_are_shown_in_units() {
    assert_eq!(format_bytes(0), "0 B");
    assert_eq!(format_bytes(1023), "1023 B");
    assert_eq!(format_bytes(1024), "1.00 KiB");
    assert_eq!(format_bytes(1536), "1.50 KiB");
    assert_eq!(format_bytes(1_048_575), "1024.00 KiB");
    assert_eq!(format_bytes(1_048_576), "1.00 MiB");
    assert_eq!(format_bytes(5_368_709_120), "5.00 GiB");
    assert_eq!(format_bytes(1_099_511_627_776), "1.00 TiB");
    assert_eq!(format_bytes(u64::MAX), "16777216.00 TiB");
}

#[test]
fn sizes_are_shown_as_numbers_of_double_precision() {
    for shift in 0..64 {
        let power = 1_u64 << shift;
        for offset in 0..300 {
            for bytes in [power.wrapping_add(offset), power.wrapping_sub(offset)] {
                assert_eq!(format_bytes(bytes), in_floats(bytes), "{bytes}");
            }
        }
    }
    for step in 0..20_000_u64 {
        let half = 1024 * step + 128 * (step % 8) + 5;
        assert_eq!(format_bytes(half), in_floats(half), "{half}");
    }
    let mut seed: u64 = 1;
    for _ in 0..20_000 {
        seed = seed.wrapping_mul(6364136223846793005).wrapping_add(1442695040888963407);
        for shift in [0, 7, 19, 31, 43] {
            let bytes = seed >> shift;
            assert_eq!(format_bytes(bytes), in_floats(bytes), "{bytes}");
        }
    }
}

#[test]
fn long_paths_are_shown_by_their_end() {
    let short = "a".repeat(42);
    assert_eq!(display_path(&short), short);
    let long = format!("x{}", "é".repeat(42));
    assert_eq!(display_path(&long), format!("…{}", "é".repeat(41)));
    assert_eq!(display_path(""), "");
}

#[test]
fn progress_is_counted() {
    assert_eq!(downloading_message(0, 12, "a.bin"), "0/12 downloading a.bin");
    assert_eq!(done_message(12, 12, "a.bin"), "12/12 done a.bin");
    assert!(has_detail_bar(Some(8_388_608)));
    assert!(!has_detail_bar(Some(8_388_607)));
    assert!(!has_detail_bar(None));
}

#[test]
fn a_download_is_summed_up() {
    let model = ResolvedModel {
        requested_id: "a/b".into(),
        source_id: "c/b".into(),
        repo_type: RepoType::Dataset,
        revision: "main".into(),
    };
    assert_eq!(
        download_summary(&model, SourceKind::HfMirror, 3, 2048, "/out"),
        vec![
            "mget HF Mirror dataset  c/b",
            "files: 3  size: 2.00 KiB  target: /out",
        ]
    );
    assert_eq!(mapped_notice(&model).as_deref(), Some("Mapped repo id: a/b -> c/b"));
    let same = ResolvedModel {
        source_id: "a/b".into(),
        ..model
    };
    assert_eq!(mapped_notice(&same), None);
    assert_eq!(finished_message("/out"), "Done: /out");
}

#[test]
fn errors_say_what_went_wrong() {
    let cases = [
        (MgetError::Network("x".into()), "network request failed: x"),
        (MgetError::Io("x".into()), "I/O error: x"),
        (MgetError::Json("x".into()), "failed to parse response: x"),
        (MgetError::Toml("x".into()), "failed to parse config file: x"),
        (MgetError::Glob("x".into()), "invalid glob pattern: x"),
        (MgetError::DownloadFailed("x".into()), "download failed after retries: x"),
        (MgetError::Message("x".into()), "x"),
    ];
    for (error, text) in cases {
        assert_eq!(error.message(), text);
    }
}

#[test]
fn numbers_are_read_as_they_are_written() {
    for number in [0, 9, 10, 99, 100, u64::MAX - 1, u64::MAX] {
        assert_eq!(decimal_text(number as u128), number.to_string());
        assert_eq!(parse_u64(&number.to_string()), Some(number));
    }
    assert_eq!(decimal_text(u128::MAX), u128::MAX.to_string());
    for text in ["", "+", "-1", "1 ", " 1", "1a", "++1", "18446744073709551616", "٣", "+7", "007"] {
        assert_eq!(parse_u64(text), text.parse::<u64>().ok(), "{text}");
    }
}

#[test]
fn texts_behave_as_strings() {
    let texts = ["", "a", "b", "ab", "a/b", "a//b/", "Z", "é", "\u{ffff}", "\u{10000}", "aé"];
    for a in texts {
        let pieces: Vec<&str> = a.split('/').collect();
        assert_eq!(split_text(a, '/'), pieces);
        assert_eq!(join_texts(&split_text(a, '/'), "--"), a.replace('/', "--"));
        assert_eq!(replace_char(a, '/', "--"), a.replace('/', "--"));
        for b in texts {
            assert_eq!(comes_before(a, b), a < b, "{a} {b}");
            assert_eq!(eq_ignore_case(a, b), a.eq_ignore_ascii_case(b));
        }
    }
    assert!(eq_ignore_case("TREE", "tree"));
    assert!(!eq_ignore_case("É", "é"));
}
