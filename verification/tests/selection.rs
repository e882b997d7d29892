use mget::cli::{DownloadArgs, RepoTypeChoice, SourceChoice};
use mget::download::filter::{filter_files, keep_file, keep_files};
use mget::download::glob::{build_glob_set, patterns_fit};
use mget::download::plan::{
    checked_known_size, part_extension, state_extension, total_known_size, DownloadPlan,
};
use mget::download::session::{fill_missing_sizes, require_files, sizes_known};
use mget::error::MgetError;
use mget::paths::Platform;
use mget::source::huggingface::HuggingFaceSource;
use mget::source::{RemoteFile, RepoType, ResolvedModel, SourceKind};

fn args() -> DownloadArgs {
    DownloadArgs {
        repo: Some("org/model".into()),
        model_id: None,
        dataset_id: None,
        repo_type: RepoTypeChoice::Model,
        source: SourceChoice::Auto,
        output: None,
        threads: None,
        revision: "main".into(),
        files: vec![],
        includes: vec![],
        excludes: vec![],
        link: None,
        interactive: false,
        hf_token: None,
        modelscope_token: None,
        modelscope_id: None,
    }
}

fn file(path: &str) -> RemoteFile {
    RemoteFile {
        path: path.into(),
        size: None,
        sha256: None,
        md5: None,
    }
}

fn sized(path: &str, size: u64) -> RemoteFile {
    RemoteFile {
        size: Some(size),
        ..file(path)
    }
}

fn model() -> ResolvedModel {
    ResolvedModel {
        requested_id: "org/model".into(),
        source_id: "org/model".into(),
        repo_type: RepoType::Model,
        revision: "main".into(),
    }
}

#[test]
fn filters_exact_file() {
    let mut args = args();
    args.files = vec!["a.bin".into()];
    let files = vec![
        RemoteFile {
            path: "a.bin".into(),
            size: None,
            sha256: None,
            md5: None,
        },
        RemoteFile {
            path: "b.bin".into(),
            size: None,
            sha256: None,
            md5: None,
        },
    ];
    let filtered = filter_files(files, &args).unwrap();
    assert_eq!(filtered.len(), 1);
    assert_eq!(filtered[0].path, "a.bin");
}

#[test]
fn filters_include_and_exclude_globs() {
    let mut args = args();
    args.includes = vec!["*.safetensors".into()];
    args.excludes = vec!["model-00002*".into()];
    let files = vec![
        RemoteFile {
            path: "model-00001.safetensors".into(),
            size: None,
            sha256: None,
            md5: None,
        },
        RemoteFile {
            path: "model-00002.safetensors".into(),
            size: None,
            sha256: None,
            md5: None,
        },
        RemoteFile {
            path: "README.md".into(),
            size: None,
            sha256: None,
            md5: None,
        },
    ];
    let filtered = filter_files(files, &args).unwrap();
    assert_eq!(filtered.len(), 1);
    assert_eq!(filtered[0].path, "model-00001.safetensors");
}

#[test]
fn any_pattern_of_a_list_suffices() {
    let mut args = args();
    args.includes = vec!["*.json".into(), "sub/**".into(), "{x,y}.txt".into()];
    args.excludes = vec!["[ab].json".into(), "sub/skip?".into()];
    let names = ["a.json", "c.json", "sub/deep/f", "sub/skip1", "sub/skip12", "y.txt", "z.txt"];
    let files = names.into_iter().map(file).collect();
    let kept: Vec<String> =
        filter_files(files, &args).unwrap().into_iter().map(|file| file.path).collect();
    assert_eq!(kept, vec!["c.json", "sub/deep/f", "sub/skip12", "y.txt"]);
}

#[test]
fn without_conditions_everything_is_kept_in_order() {
    let kept = filter_files(vec![file("b"), file("a"), file("b")], &args()).unwrap();
    let paths: Vec<&str> = kept.iter().map(|file| file.path.as_str()).collect();
    assert_eq!(paths, vec!["b", "a", "b"]);
    assert!(build_glob_set(&vec![]).unwrap().is_none());
}

#[test]
fn a_bad_pattern_is_reported() {
    let mut args = args();
    args.excludes = vec!["fine*".into(), "[z-a]".into(), "{".into()];
    let error = filter_files(vec![], &args).unwrap_err();
    assert!(matches!(error, MgetError::Glob(_)));
    assert_eq!(
        error.message(),
        "invalid glob pattern: error parsing glob '[z-a]': invalid range; 'z' > 'a'"
    );
}

#[test]
fn all_conditions_have_to_hold() {
    let wanted = vec!["a".to_string(), "b".to_string()];
    assert!(keep_file(&wanted, "b", None, None));
    assert!(!keep_file(&wanted, "c", Some(true), None));
    assert!(keep_file(&vec![], "c", Some(true), Some(false)));
    assert!(!keep_file(&vec![], "c", Some(false), Some(false)));
    assert!(!keep_file(&wanted, "a", Some(true), Some(true)));
}

#[test]
fn very_long_patterns_are_not_compiled() {
    assert!(patterns_fit(&vec!["*.bin".into(), "x".repeat(100_000)]));
    assert!(!patterns_fit(&vec!["x".repeat(3_000_000)]));
    assert!(patterns_fit(&vec![]));
}

#[test]
fn stars_on_both_sides_are_matched() {
    let mut args = args();
    args.includes = vec!["*.safetensors".into()];
    args.excludes = vec!["*00002*".into()];
    let names = ["model-00001.safetensors", "model-00002.safetensors", "README.md"];
    let kept = filter_files(names.into_iter().map(file).collect(), &args).unwrap();
    assert_eq!(kept.len(), 1);
    assert_eq!(kept[0].path, "model-00001.safetensors");
    args.includes = vec!["*00002*".into()];
    args.excludes = vec![];
    let kept = filter_files(names.into_iter().map(file).collect(), &args).unwrap();
    assert_eq!(kept.len(), 1);
    assert_eq!(kept[0].path, "model-00002.safetensors");
}

#[test]
fn modest_lists_compile_whatever_they_hold() {
    let pieces = [
        "\u{10ffff}", "?", "*", "**", "**/", "/**/", "/**", "a/**/", "[a]",
        "[!\u{10000}-\u{10ffff}]", "[^]x-z\u{3b1}]", "{a}", "{a,b}",
        "{ab,ac,\u{10ffff}\u{10fffe},\u{10ffff}\u{10fffd}}", "{,a}", "{}", "{?,*}", "{**/a,b/**}", "a?", "*a", "[a]{b,[!c]}", "a", ",", "{a,ab,abc,abcd}", "/",
    ];
    for piece in pieces {
        let times = 10_000 / piece.chars().count();
        let one = vec![format!("{}?", piece.repeat(times - 1))];
        assert!(patterns_fit(&one), "{piece}");
        assert!(build_glob_set(&one).unwrap().is_some(), "{piece}");
        let each = piece.repeat((times / 1_000).max(1));
        let count = (10_000 / each.chars().count()).min(1_000);
        let many: Vec<String> = (0..count).map(|_| each.clone()).collect();
        assert!(patterns_fit(&many), "{piece}");
        assert!(build_glob_set(&many).unwrap().is_some(), "{piece}");
    }
    let empty: Vec<String> = (0..1_000).map(|_| String::new()).collect();
    assert!(build_glob_set(&empty).unwrap().is_some());
}

#[test]
fn modestly_nested_groups_compile() {
    for (open, inner, close) in [
        ("{", "a", "}"),
        ("{a,?", "**/a", ",*}"),
        ("b{a,b[!c]", "a/**/b", "?,c}d"),
        ("{*,", "[abc-z]", "x,y}"),
    ] {
        let nested = vec![format!("{}{inner}{}", open.repeat(75), close.repeat(75))];
        assert!(patterns_fit(&nested), "{open}");
        assert!(build_glob_set(&nested).unwrap().is_some(), "{open}");
    }
}

#[test]
fn long_lists_of_patterns_are_compiled() {
    let many: Vec<String> = (0..12_000).map(|i| format!("directory-{i:08}/*")).collect();
    assert!(patterns_fit(&many));
    assert!(build_glob_set(&many).unwrap().is_some());
    let same: Vec<String> = (0..12_000).map(|_| "directory-00000001/*".to_string()).collect();
    assert!(patterns_fit(&same));
    assert!(build_glob_set(&same).unwrap().is_some());
    let twice: Vec<String> = (0..6_000).map(|i| format!("directory-{:08}/*", i / 2)).collect();
    assert!(patterns_fit(&twice));
}

#[test]
fn deeply_nested_groups_are_not_compiled() {
    let nested = |depth: usize| vec![format!("{}a{}", "{".repeat(depth), "}".repeat(depth))];
    assert!(patterns_fit(&nested(250)));
    assert!(matches!(build_glob_set(&nested(250)), Ok(_) | Err(MgetError::Glob(_))));
    assert!(!patterns_fit(&nested(251)));
    assert!(!patterns_fit(&vec!["{".repeat(100_000)]));
    for piece in [
        "{a}", "{b,[!}]c}", "{[}]}", "{[{]}", "{[]{]}", "{[!]{]}", "[{]", "[^{]", "[{}{]",
    ] {
        assert!(patterns_fit(&vec![piece.repeat(300)]), "{piece}");
        assert!(build_glob_set(&vec![piece.repeat(300)]).unwrap().is_some(), "{piece}");
    }
    for piece in ["{[}]", "{[!]}]", "{\\}", "\\{"] {
        assert!(!patterns_fit(&vec![piece.repeat(300)]), "{piece}");
    }
}

#[test]
fn plain_patterns_match_by_their_text() {
    let matches = |pattern: &str, path: &str| {
        let set = build_glob_set(&vec![pattern.to_string()]).unwrap();
        keep_files(&vec![file(path)], &vec![], &set, &None).len() == 1
    };
    let paths = [
        "", ".", "..", "/", "a", "a.b", ".b", "a/.b", "x/a.b", "a.b/", "a.b/c", "ab", "b", "/b",
        "a/b", "a..b", "a.", "x..", ",!]-^$.b", "é.b", "a.b.b",
    ];
    let texts = ["a", "a.b", ".b", "b", "/b", "..", "a/", "a.", ".b.b", "]-^$.b", ",!", "é", ".b/"];
    for path in paths {
        for text in texts {
            assert_eq!(matches(text, path), path == text, "{text} {path}");
            let start = format!("{text}*");
            assert_eq!(matches(&start, path), path.starts_with(text), "{start} {path}");
            let end = format!("*{text}");
            assert_eq!(matches(&end, path), path.ends_with(text), "{end} {path}");
        }
    }
}

#[test]
fn the_sets_decide_what_is_kept() {
    let files = vec![file("a.bin"), file("b.bin"), file("b.txt"), file("a.bin")];
    let bin = build_glob_set(&vec!["*.bin".into()]).unwrap();
    let b = build_glob_set(&vec!["b*".into()]).unwrap();
    let kept = |wanted: Vec<String>, taken, left| -> Vec<String> {
        keep_files(&files, &wanted, taken, left).into_iter().map(|file| file.path).collect()
    };
    assert_eq!(kept(vec![], &None, &None), vec!["a.bin", "b.bin", "b.txt", "a.bin"]);
    assert_eq!(kept(vec![], &bin, &None), vec!["a.bin", "b.bin", "a.bin"]);
    assert_eq!(kept(vec![], &None, &b), vec!["a.bin", "a.bin"]);
    assert_eq!(kept(vec![], &b, &bin), vec!["b.txt"]);
    assert_eq!(kept(vec!["b.bin".into(), "b.txt".into()], &bin, &None), vec!["b.bin"]);
}

#[test]
fn the_included_patterns_are_read_first() {
    let mut args = args();
    args.includes = vec!["*".into(), "[b-a]".into()];
    args.excludes = vec!["[z-a]".into()];
    assert_eq!(
        filter_files(vec![], &args).unwrap_err().message(),
        "invalid glob pattern: error parsing glob '[b-a]': invalid range; 'b' > 'a'"
    );
    args.includes = vec!["*".into()];
    assert_eq!(
        filter_files(vec![], &args).unwrap_err().message(),
        "invalid glob pattern: error parsing glob '[z-a]': invalid range; 'z' > 'a'"
    );
}

#[test]
fn filtering_goes_file_by_file_and_once_is_enough() {
    let mut args = args();
    args.includes = vec!["*.bin".into(), "{x,y}/**".into()];
    args.excludes = vec!["b*".into()];
    let first = vec![file("a.bin"), file("b.bin"), file("x/1")];
    let second = vec![file("y/b.bin"), file("z/1"), file("a.bin")];
    let paths = |files: Vec<RemoteFile>| -> Vec<String> {
        filter_files(files, &args).unwrap().into_iter().map(|file| file.path).collect()
    };
    let both: Vec<RemoteFile> = first.iter().chain(second.iter()).cloned().collect();
    let whole = paths(both);
    assert_eq!(whole, vec!["a.bin", "x/1", "y/b.bin", "a.bin"]);
    let mut parts = paths(first);
    parts.extend(paths(second));
    assert_eq!(whole, parts);
    assert_eq!(paths(whole.iter().map(|path| file(path)).collect()), whole);
}

#[test]
fn a_plan_keeps_its_files_beside_the_targets() {
    let source = HuggingFaceSource::new(SourceKind::HuggingFace, None);
    let files = vec![sized("dir/model.bin", 5), file("LICENSE"), file("x.tar.gz")];
    let plan = DownloadPlan::new(&source, &model(), files, "/out".into(), Platform::Unix).unwrap();
    assert_eq!(plan.output_root, "/out");
    assert_eq!(plan.files.len(), 3);
    let first = &plan.files[0];
    assert_eq!(first.url, "https://huggingface.co/org/model/resolve/main/dir/model.bin");
    assert_eq!(first.target, "/out/dir/model.bin");
    assert_eq!(first.part, "/out/dir/model.bin.mget-part");
    assert_eq!(first.state, "/out/dir/model.bin.mget-state.json");
    assert_eq!(first.remote.size, Some(5));
    assert_eq!(plan.files[1].part, "/out/LICENSE.mget-part");
    assert_eq!(plan.files[1].state, "/out/LICENSE.mget-state.json");
    assert_eq!(plan.files[2].part, "/out/x.tar.gz.mget-part");
    assert_eq!(total_known_size(&plan.files), 5);
}

#[test]
fn a_plan_refuses_the_first_unsafe_path() {
    let source = HuggingFaceSource::new(SourceKind::HuggingFace, None);
    let files = vec![file("ok"), file("a/../b"), file("/abs")];
    let error =
        DownloadPlan::new(&source, &model(), files, "out".into(), Platform::Unix).unwrap_err();
    assert_eq!(error.message(), "repository file path is unsafe: a/../b");
}

#[test]
fn extensions_of_temporary_files() {
    assert_eq!(part_extension(&None), "mget-part");
    assert_eq!(part_extension(&Some("bin".into())), "bin.mget-part");
    assert_eq!(state_extension(&None), "mget-state.json");
    assert_eq!(state_extension(&Some("bin".into())), "bin.mget-state.json");
}

#[test]
fn sizes_too_large_to_add_are_noticed() {
    let source = HuggingFaceSource::new(SourceKind::HuggingFace, None);
    let files = vec![sized("a", u64::MAX), file("b"), sized("c", 1)];
    let plan = DownloadPlan::new(&source, &model(), files, "out".into(), Platform::Unix).unwrap();
    assert_eq!(checked_known_size(&plan.files), None);
    assert_eq!(checked_known_size(&plan.files[..2]), Some(u64::MAX));
    assert_eq!(checked_known_size(&[]), Some(0));
}

#[test]
fn an_empty_repository_is_refused() {
    let error = require_files(&vec![], &model()).unwrap_err();
    assert_eq!(error.message(), "source returned no downloadable files for 'org/model'");
    assert!(require_files(&vec![file("a")], &model()).is_ok());
}

#[test]
fn probes_fill_only_what_is_missing() {
    let files = vec![sized("a", 1), file("b"), file("c")];
    assert!(!sizes_known(&files));
    let filled = fill_missing_sizes(files, &vec![Some(9), Some(8), None]);
    let sizes: Vec<Option<u64>> = filled.iter().map(|file| file.size).collect();
    assert_eq!(sizes, vec![Some(1), Some(8), None]);
    assert_eq!(filled[1].path, "b");
    assert!(sizes_known(&vec![sized("a", 0)]));
    assert!(sizes_known(&vec![]));
}
