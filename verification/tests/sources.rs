use mget::config::EffectiveConfig;
use mget::download::session::{build_source, requested_repo, RepoRequest};
use mget::cli::{DownloadArgs, RepoTypeChoice, SourceChoice};
use mget::source::huggingface::{files_of_siblings, HfLfs, HfSibling, HuggingFaceSource};
use mget::source::json::{JsonEntry, JsonValue};
use mget::source::modelscope::{extract_files, extract_model_ids, ModelScopeSource};
use mget::source::{Field, ModelSource, RemoteFile, RepoType, SourceKind};

fn object(entries: Vec<(&str, JsonValue)>) -> JsonValue {
    JsonValue::Object(
        entries
            .into_iter()
            .map(|(key, value)| JsonEntry {
                key: key.into(),
                value,
            })
            .collect(),
    )
}

fn text(value: &str) -> JsonValue {
    JsonValue::Text(value.into())
}

fn number(value: u64) -> JsonValue {
    JsonValue::Number(Some(value))
}

fn file(path: &str) -> RemoteFile {
    RemoteFile {
        path: path.into(),
        size: None,
        sha256: None,
        md5: None,
    }
}

fn pairs(fields: &[Field]) -> Vec<(&str, &str)> {
    fields.iter().map(|field| (field.name.as_str(), field.value.as_str())).collect()
}

#[test]
fn extracts_model_ids_from_nested_search_payload() {
    let value = object(vec![(
        "Data",
        object(vec![(
            "Model",
            JsonValue::Array(vec![
                object(vec![("ModelId", text("org/model-a"))]),
                object(vec![("Path", text("org/model-b"))]),
                object(vec![("Name", text("plain-name"))]),
            ]),
        )]),
    )]);
    let ids = extract_model_ids(&value);
    assert_eq!(ids, vec!["org/model-a", "org/model-b"]);
}

#[test]
fn extracts_files_from_nested_payload() {
    let value = object(vec![(
        "Data",
        object(vec![(
            "Files",
            JsonValue::Array(vec![
                object(vec![
                    ("Path", text("README.md")),
                    ("Size", number(10)),
                    ("Sha256", text("abc")),
                ]),
                object(vec![("Path", text("folder")), ("Type", text("tree"))]),
            ]),
        )]),
    )]);
    let files = extract_files(&value);
    assert_eq!(files.len(), 1);
    assert_eq!(files[0].path, "README.md");
    assert_eq!(files[0].size, Some(10));
    assert_eq!(files[0].sha256.as_deref(), Some("abc"));
}

#[test]
fn ids_are_sorted_and_named_once() {
    let value = JsonValue::Array(vec![
        object(vec![("name", text("z/last")), ("ModelId", text("b/x"))]),
        object(vec![("path", text("a/x")), ("Name", JsonValue::Null)]),
        object(vec![("modelId", text("b/x")), ("other", text("c/ignored"))]),
        JsonValue::Bool(true),
    ]);
    assert_eq!(extract_model_ids(&value), vec!["a/x", "b/x", "z/last"]);
    assert!(extract_model_ids(&text("a/b")).is_empty());
}

#[test]
fn the_first_file_with_a_path_is_taken() {
    let value = JsonValue::Array(vec![
        object(vec![("path", text("b.bin")), ("size", number(1)), ("md5", text("m"))]),
        object(vec![("Name", text("a.bin")), ("Type", text("blob")), ("SHA256", text("s"))]),
        object(vec![("Path", text("b.bin")), ("Size", number(2))]),
        object(vec![("Path", text("d.d")), ("type", text("DIR"))]),
        object(vec![("Path", text("e.e/")), ("Size", number(3))]),
        object(vec![("Path", text("no_dot"))]),
        object(vec![("Path", number(3)), ("filePath", text("c.bin")), ("Size", text("7"))]),
    ]);
    let files = extract_files(&value);
    let paths: Vec<&str> = files.iter().map(|file| file.path.as_str()).collect();
    assert_eq!(paths, vec!["a.bin", "b.bin", "c.bin"]);
    assert_eq!(files[0].sha256.as_deref(), Some("s"));
    assert_eq!(files[1].size, Some(1));
    assert_eq!(files[1].md5.as_deref(), Some("m"));
    assert_eq!(files[2].size, None);
}

#[test]
fn hugging_face_siblings_become_files() {
    let siblings = vec![
        HfSibling {
            rfilename: "README.md".into(),
            size: Some(5),
            sha256: Some("own".into()),
            lfs: Some(HfLfs {
                sha256: Some("abc".into()),
            }),
        },
        HfSibling {
            rfilename: "dir/".into(),
            size: None,
            sha256: None,
            lfs: None,
        },
        HfSibling {
            rfilename: "dir/x".into(),
            size: None,
            sha256: Some("own".into()),
            lfs: Some(HfLfs { sha256: None }),
        },
    ];
    let files = files_of_siblings(&siblings);
    assert_eq!(files.len(), 2);
    assert_eq!(files[0].path, "README.md");
    assert_eq!(files[0].size, Some(5));
    assert_eq!(files[0].sha256.as_deref(), Some("abc"));
    assert_eq!(files[1].path, "dir/x");
    assert_eq!(files[1].sha256.as_deref(), Some("own"));
    assert_eq!(files[1].md5, None);
}

#[test]
fn hugging_face_addresses() {
    let source = HuggingFaceSource::with_base_url(
        SourceKind::HuggingFace,
        "http://localhost:8000//",
        Some("secret".into()),
    );
    let model = source.resolve_model("org/model", RepoType::Model, "refs/pr/1").unwrap();
    assert_eq!(model.requested_id, "org/model");
    assert_eq!(model.source_id, "org/model");
    assert_eq!(model.repo_type, RepoType::Model);
    assert_eq!(source.source_kind(), SourceKind::HuggingFace);
    let request = source.list_request(&model);
    assert_eq!(
        request.url,
        "http://localhost:8000/api/models/org/model/revision/refs%2Fpr%2F1"
    );
    assert!(request.query.is_empty());
    assert_eq!(
        pairs(&request.headers),
        vec![("user-agent", "mget/0.1.0"), ("authorization", "Bearer secret")]
    );
    assert_eq!(
        source.download_url(&model, &file("a b/ü+~.bin")),
        "http://localhost:8000/org/model/resolve/refs%2Fpr%2F1/a%20b/%C3%BC%2B~.bin"
    );
}

#[test]
fn plain_addresses_stay_plain() {
    let source = HuggingFaceSource::new(SourceKind::HfMirror, None);
    let model = source.resolve_model("org/model", RepoType::Model, "main").unwrap();
    assert_eq!(
        source.list_request(&model).url,
        "https://hf-mirror.com/api/models/org/model/revision/main"
    );
    assert!(
        source
            .download_url(&model, &file("README.md"))
            .ends_with("/org/model/resolve/main/README.md")
    );
    assert_eq!(pairs(&source.auth_headers()), vec![("user-agent", "mget/0.1.0")]);
}

#[test]
fn modelscope_addresses() {
    let source = ModelScopeSource::new(Some("t".into()));
    let model = source.resolve_model("org/m", RepoType::Dataset, "v 1").unwrap();
    let request = source.list_request(&model);
    assert_eq!(request.url, "https://modelscope.cn/api/v1/models/org/m/repo/files");
    assert_eq!(pairs(&request.query), vec![("Revision", "v 1"), ("Recursive", "true")]);
    assert_eq!(pairs(&request.headers)[1], ("authorization", "Bearer t"));
    let search = source.search_request("org/m");
    assert_eq!(search.url, "https://modelscope.cn/api/v1/models");
    assert_eq!(pairs(&search.query), vec![("Name", "org/m"), ("PageSize", "5")]);
    assert_eq!(
        source.download_url(&model, &file("a/b.bin")),
        "https://modelscope.cn/api/v1/models/org/m/repo?Revision=v%201&FilePath=a%2Fb.bin"
    );
    let local = ModelScopeSource::with_base_url("http://x/", None);
    assert_eq!(local.search_request("q").url, "http://x/api/v1/models");
}

#[test]
fn a_token_that_no_header_can_hold_is_left_out() {
    for token in ["a\nb", "a\u{7f}b", "\u{0}"] {
        let source = ModelScopeSource::new(Some(token.into()));
        assert_eq!(source.auth_headers().len(), 1, "{token:?}");
    }
    for token in ["", "a\tb", "é"] {
        let source = ModelScopeSource::new(Some(token.into()));
        assert_eq!(source.auth_headers()[1].value, format!("Bearer {token}"));
    }
}

fn config() -> EffectiveConfig {
    EffectiveConfig {
        hf_token: Some("hf".into()),
        modelscope_token: Some("ms".into()),
        threads: 1,
        cache_dir: "c".into(),
    }
}

#[test]
fn sources_are_built_with_their_own_token() {
    for (kind, base, token) in [
        (SourceKind::HuggingFace, "https://huggingface.co", "Bearer hf"),
        (SourceKind::HfMirror, "https://hf-mirror.com", "Bearer hf"),
        (SourceKind::ModelScope, "https://modelscope.cn", "Bearer ms"),
    ] {
        let source = build_source(kind, &config());
        assert_eq!(source.source_kind(), kind);
        assert_eq!(source.auth_headers()[1].value, token);
        let model = source.resolve_model("o/m", RepoType::Model, "main").unwrap();
        assert!(source.list_request(&model).url.starts_with(base));
        assert!(source.download_url(&model, &file("f.x")).starts_with(base));
        assert_eq!(kind.endpoint(), base);
    }
    assert_eq!(SourceKind::HfMirror.label(), "HF Mirror");
    assert_eq!(SourceKind::ModelScope.label(), "ModelScope");
    assert_eq!(SourceKind::HuggingFace.cache_segment(), "huggingface");
}

#[test]
fn only_models_at_modelscope_are_mapped() {
    let mut args = DownloadArgs {
        repo: Some("org/model".into()),
        model_id: None,
        dataset_id: None,
        repo_type: RepoTypeChoice::Model,
        source: SourceChoice::Auto,
        output: None,
        threads: None,
        revision: "main".into(),
        files: vec![],
        includes: vec![],
        excludes: vec![],
        link: None,
        interactive: false,
        hf_token: None,
        modelscope_token: None,
        modelscope_id: None,
    };
    let request = requested_repo(&args, RepoType::Model, SourceKind::ModelScope).unwrap();
    assert!(matches!(request, RepoRequest::Mapped(id) if id == "org/model"));
    for (kind, source) in [
        (RepoType::Dataset, SourceKind::ModelScope),
        (RepoType::Model, SourceKind::HuggingFace),
    ] {
        let request = requested_repo(&args, kind, source).unwrap();
        assert!(matches!(request, RepoRequest::Direct(id) if id == "org/model"));
    }
    args.repo = None;
    let error = requested_repo(&args, RepoType::Model, SourceKind::HuggingFace).unwrap_err();
    assert_eq!(error.message(), "repository id is required");
}
