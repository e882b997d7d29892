use std::path::{Path, PathBuf};

use mget::cache::{
    compat_links, decide_link, default_output_root, ensure_relative_repo_path, sanitize_component,
    sanitize_repo_id, LinkStep,
};
use mget::cli::LinkChoice;
use mget::error::MgetError;
use mget::names::{extension, with_extension};
use mget::paths::{is_rooted_path, join_path, same_path, Platform};
use mget::source::{RepoType, ResolvedModel, SourceKind};

fn model(id: &str, revision: &str) -> ResolvedModel {
    ResolvedModel {
        requested_id: id.into(),
        source_id: id.into(),
        repo_type: RepoType::Model,
        revision: revision.into(),
    }
}

const PATHS: [&str; 34] = [
    "",
    "/",
    "//",
    ".",
    "..",
    "./",
    "/.",
    "a",
    "a/",
    "a/.",
    "a/./",
    "a//",
    "a/..",
    "./a",
    ".a",
    "a.",
    "a..",
    "..a",
    ".a.b",
    "a.b",
    "a.b/",
    "a.b/.",
    "a.b/..",
    "a.b.c",
    "dir/file.bin",
    "/dir/file",
    "/dir//file.tar.gz",
    "dir/.hidden",
    "dir/.hidden.x",
    "dir/./x.y",
    "../x.y",
    "x.y/../z",
    "...",
    "é/ü.ß",
];

#[test]
fn sanitizes_repo_into_nested_path() {
    assert_eq!(
        sanitize_repo_id("meta-llama/Meta-Llama-3"),
        "meta-llama/Meta-Llama-3"
    );
}

#[test]
fn rejects_parent_dir_paths() {
    assert!(ensure_relative_repo_path("../secret", Platform::Unix).is_err());
    assert!(ensure_relative_repo_path("ok/file.txt", Platform::Unix).is_ok());
}

#[test]
fn unsafe_paths_are_named() {
    for path in ["/etc/passwd", "a/../b", "..", "a/.."] {
        let error = ensure_relative_repo_path(path, Platform::Unix).unwrap_err();
        assert_eq!(error.message(), format!("repository file path is unsafe: {path}"));
    }
    for path in ["", "a..b", "..a/b", "...", "./a", "a//b"] {
        assert_eq!(ensure_relative_repo_path(path, Platform::Unix).unwrap(), path);
    }
}

#[test]
fn special_characters_become_underscores() {
    assert_eq!(sanitize_component("a/b\\c:d*e?f\"g<h>i|j"), "a_b_c_d_e_f_g_h_i_j");
    assert_eq!(sanitize_component("plain-1.0"), "plain-1.0");
    assert_eq!(sanitize_repo_id("//a//b:c/"), "a/b_c");
    assert_eq!(sanitize_repo_id(""), "");
}

#[test]
fn output_root_is_below_the_cache() {
    let model = model("org/model", "refs/pr:1");
    assert_eq!(
        default_output_root(None, "/cache", SourceKind::HfMirror, &model, Platform::Unix),
        "/cache/hf-mirror/org/model/refs_pr_1"
    );
    assert_eq!(
        default_output_root(Some("./out"), "/cache", SourceKind::HfMirror, &model, Platform::Unix),
        "./out"
    );
}

#[test]
fn links_go_where_other_tools_look() {
    let model = model("org/model", "main");
    let hf = "/home/me/.cache/huggingface/hub/models--org--model/snapshots/main";
    let modelscope = "/home/me/.cache/modelscope/hub/org/model/main";
    let home = Some("/home/me");
    let links = |choice, home| compat_links(choice, home, &model, Platform::Unix);
    assert_eq!(links(Some(LinkChoice::Hf), home), vec![hf]);
    assert_eq!(links(Some(LinkChoice::Modelscope), home), vec![modelscope]);
    assert_eq!(links(Some(LinkChoice::All), home), vec![hf, modelscope]);
    assert!(links(None, home).is_empty());
    assert!(links(Some(LinkChoice::All), None).is_empty());
}

#[test]
fn an_existing_place_is_never_replaced() {
    let decide = |exists, found| decide_link("/l", exists, found, "/t", Platform::Unix);
    assert!(matches!(decide(false, None), LinkStep::Create));
    assert!(matches!(decide(true, Some("/t/./")), LinkStep::Keep));
    for found in [None, Some("/other")] {
        match decide(true, found) {
            LinkStep::Refuse(error @ MgetError::SymlinkConflict(_)) => assert_eq!(
                error.message(),
                "symlink target already exists and points elsewhere: /l"
            ),
            other => panic!("{other:?}"),
        }
    }
}

#[test]
fn paths_join_as_in_the_system() {
    for base in PATHS {
        for path in PATHS {
            assert_eq!(
                join_path(base, path, Platform::Unix),
                Path::new(base).join(path).to_str().unwrap(),
                "{base} {path}"
            );
        }
    }
}

#[test]
fn paths_compare_as_in_the_system() {
    for a in PATHS {
        assert_eq!(is_rooted_path(a, Platform::Unix), Path::new(a).has_root(), "{a}");
        for b in PATHS {
            assert_eq!(same_path(a, b, Platform::Unix), Path::new(a) == Path::new(b), "{a} {b}");
        }
    }
}

#[test]
fn extensions_change_as_in_the_system() {
    for path in PATHS {
        let known = Path::new(path).extension().map(|ext| ext.to_str().unwrap().to_string());
        assert_eq!(extension(path, Platform::Unix), known, "{path}");
        for ext in ["", "x", "mget-part", "b.mget-part", ".y"] {
            let mut expected = PathBuf::from(path);
            expected.set_extension(ext);
            let changed = with_extension(path, ext, Platform::Unix);
            assert_eq!(changed, expected.to_str().unwrap(), "{path} {ext}");
        }
    }
}

#[test]
fn a_backslash_separates_on_windows_only() {
    for path in [
        r"..\x", r"a\..\b", "a/../b", "..", r"C:\x", "c:x", "C:", r"\\server\share\x",
        "//server/share", r"\\.\COM1", r"\\?\C:\x", r"\\?\x",
    ] {
        let error = ensure_relative_repo_path(path, Platform::Windows).unwrap_err();
        assert_eq!(error.message(), format!("repository file path is unsafe: {path}"));
    }
    for path in [r"..\x", r"a\..\b", r"C:\x", "c:x", r"\\server\share\x"] {
        assert_eq!(ensure_relative_repo_path(path, Platform::Unix).unwrap(), path);
    }
    for path in ["", "a/b", r"a\b", r"..a\b", r".\a", "1:x", r"\a", "/a", r"\\a", "ab:c"] {
        assert_eq!(ensure_relative_repo_path(path, Platform::Windows).unwrap(), path);
    }
}

#[test]
fn paths_join_on_windows() {
    for (base, path, whole) in [
        ("", "a", "a"),
        ("a", "b", r"a\b"),
        (r"a\", "b", r"a\b"),
        ("a/", "b", "a/b"),
        ("a", "", r"a\"),
        (r"C:\a", r"b\c", r"C:\a\b\c"),
        ("C:", "a", "C:a"),
        ("C:", "", "C:"),
        (r"C:\a", r"\b", r"C:\b"),
        (r"C:\a", "/b", "C:/b"),
        (r"C:\a", "D:b", "D:b"),
        (r"C:\a", r"\\s\h\b", r"\\s\h\b"),
        (r"\\s\h", "a", r"\\s\h\a"),
        (r"\\s\h\a", r"\b", r"\\s\h\b"),
        (r"\\.\dev\a", r"\b", r"\\.\dev\b"),
        (r"\\?\C:\a\b", r"c/.\..\..\d", r"\\?\C:\a\d"),
        (r"\\?\C:\a", r"\b", r"\\?\C:\b"),
        (r"\\?\C:", "b", r"\\?\C:\b"),
        (r"\\?\C:\", "b", r"\\?\C:\b"),
        (r"\\?\C:\a\\b", "c", r"\\?\C:\a\b\c"),
        (r"\\?\UNC\s\h\a", r"\b", r"\\?\UNC\s\h\b"),
        (r"\\?\UNC\s\h\a/b", "c", r"\\?\UNC\s\h\a/b\c"),
        (r"\\?\x", "", r"\\?\x\"),
    ] {
        assert_eq!(join_path(base, path, Platform::Windows), whole, "{base} {path}");
    }
}

#[test]
fn paths_compare_on_windows() {
    for (a, b) in [
        (r"C:\a\b", "c:/a//b/"),
        (r"C:\a\.\b", r"C:\a\b"),
        (r"\\s\h\a", "//s/h/a"),
        (r"\\s\h", r"\\s\h\"),
        (r"\\?\c:\a", r"\\?\C:\a\"),
        (r"a\b", "a/b"),
    ] {
        assert!(same_path(a, b, Platform::Windows), "{a} {b}");
    }
    for (a, b) in [
        (r"C:\a", "C:a"),
        (r"C:\a", r"D:\a"),
        (r"C:\a", r"\\?\C:\a"),
        (r"\\?\C:\a\.", r"\\?\C:\a"),
        (r"\\?\C:\a/b", r"\\?\C:\a\b"),
        (r".\a", "a"),
        (r"\a", "a"),
        (r"\\s\h\a", r"\\s\H\a"),
        ("a", "A"),
    ] {
        assert!(!same_path(a, b, Platform::Windows), "{a} {b}");
    }
}

#[test]
fn extensions_change_on_windows() {
    for (path, known, changed) in [
        (r"C:\a\b.c", Some("c"), r"C:\a\b.x"),
        (r"a.b\c", None, r"a.b\c.x"),
        ("C:b.c", Some("c"), "C:b.x"),
        (r"C:\b.c\.\", Some("c"), r"C:\b.x"),
        (r"\\?\C:\b.c\.", None, r"\\?\C:\b.c\."),
        (r"\\?\C:\b.c/d", Some("c/d"), r"\\?\C:\b.x"),
        (r"\\s.t\h.i", None, r"\\s.t\h.i"),
        (r"C:\", None, r"C:\"),
        ("C:", None, "C:"),
        (r"..\..", None, r"..\.."),
    ] {
        assert_eq!(extension(path, Platform::Windows).as_deref(), known, "{path}");
        assert_eq!(with_extension(path, "x", Platform::Windows), changed, "{path}");
    }
}

#[test]
fn places_are_named_as_the_system_names_them() {
    let model = model("org/model", "main");
    assert_eq!(
        default_output_root(None, r"C:\c", SourceKind::HfMirror, &model, Platform::Windows),
        r"C:\c\hf-mirror\org/model\main"
    );
    assert_eq!(
        compat_links(Some(LinkChoice::Hf), Some(r"C:\me"), &model, Platform::Windows),
        vec![r"C:\me\.cache\huggingface\hub\models--org--model\snapshots\main"]
    );
    let found = Some("c:/t/");
    assert!(matches!(decide_link("l", true, found, r"C:\t", Platform::Windows), LinkStep::Keep));
    let step = decide_link("l", true, found, r"C:\t", Platform::Unix);
    assert!(matches!(step, LinkStep::Refuse(_)));
}
