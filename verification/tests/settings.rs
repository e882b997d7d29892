use mget::cli::{DownloadArgs, RepoTypeChoice, SourceChoice};
use mget::config::{env_first, Config, FileConfig};
use mget::paths::Platform;
use mget::text::is_blank_text;

fn args() -> DownloadArgs {
    DownloadArgs {
        repo: Some("org/model".into()),
        model_id: None,
        dataset_id: None,
        repo_type: RepoTypeChoice::Model,
        source: SourceChoice::Auto,
        output: None,
        threads: None,
        revision: "main".into(),
        files: vec![],
        includes: vec![],
        excludes: vec![],
        link: None,
        interactive: false,
        hf_token: None,
        modelscope_token: None,
        modelscope_id: None,
    }
}

#[test]
fn cli_values_override_config_defaults() {
    let config = Config {
        hf_token: Some("file-hf".into()),
        modelscope_token: Some("file-ms".into()),
        default_threads: 4,
        cache_dir: "/tmp/mget".into(),
    };
    let args = DownloadArgs {
        threads: Some(16),
        hf_token: Some("cli-hf".into()),
        ..args()
    };

    let effective = config.effective_for(&args);
    assert_eq!(effective.hf_token.as_deref(), Some("cli-hf"));
    assert_eq!(effective.modelscope_token.as_deref(), Some("file-ms"));
    assert_eq!(effective.threads, 16);
}

#[test]
fn threads_are_never_zero() {
    let file = FileConfig {
        default_threads: Some(0),
        ..FileConfig::empty()
    };
    let config = Config::load(file, &vec![], &vec![], None, Platform::Unix);
    assert_eq!(config.default_threads, 1);
    let none = DownloadArgs {
        threads: Some(0),
        ..args()
    };
    assert_eq!(config.effective_for(&none).threads, 1);
    assert_eq!(config.effective_for(&args()).threads, 1);
    assert_eq!(config.effective_for(&args()).cache_dir, ".mget-cache");
}

#[test]
fn environment_comes_before_the_file() {
    let file = FileConfig {
        hf_token: Some("file".into()),
        modelscope_token: Some("other".into()),
        default_threads: None,
        cache_dir: None,
    };
    let config = Config::load(
        file,
        &vec![None, Some("second".to_string())],
        &vec![Some("  ".to_string())],
        Some("/home/me"),
        Platform::Unix,
    );
    assert_eq!(config.hf_token.as_deref(), Some("second"));
    assert_eq!(config.modelscope_token.as_deref(), Some("other"));
    assert_eq!(config.default_threads, 6);
    assert_eq!(config.cache_dir, "/home/me/.cache/mget");
}

#[test]
fn a_blank_first_variable_hides_the_second() {
    let values = vec![Some(" \t\n".to_string()), Some("token".to_string())];
    assert_eq!(env_first(&values), None);
    assert_eq!(env_first(&vec![None, None]), None);
    let config = Config::load(
        FileConfig {
            cache_dir: Some("elsewhere".into()),
            ..FileConfig::empty()
        },
        &values,
        &vec![],
        None,
        Platform::Unix,
    );
    assert_eq!(config.hf_token, None);
    assert_eq!(config.cache_dir, "elsewhere");
}

#[test]
fn blank_means_white_space_of_any_script() {
    let mut code: u32 = 0;
    while code <= 0x10ffff {
        if let Some(ch) = char::from_u32(code) {
            assert_eq!(is_blank_text(&ch.to_string()), ch.is_whitespace(), "{code:x}");
        }
        code += 1;
    }
    assert!(is_blank_text(""));
    assert!(!is_blank_text(" a "));
}

#[test]
fn the_cache_is_named_as_the_system_names_paths() {
    let config = Config::load(
        FileConfig::empty(),
        &vec![],
        &vec![],
        Some("C:\\Users\\me"),
        Platform::Windows,
    );
    assert_eq!(config.cache_dir, "C:\\Users\\me\\.cache\\mget");
}
