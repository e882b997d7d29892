use mget::cli::SourceChoice;
use mget::error::MgetError;
use mget::mapping::{map_by_prefix, resolve_modelscope_id, MappingStep};
use mget::routing::{
    answered, choose_best, is_probe_success, ping_lines, recommendation, select_source,
    sources_to_probe, unavailable, Latency, ProbeResult, RouteStep,
};
use mget::source::{RepoType, SourceKind};

#[test]
fn maps_known_prefix() {
    assert_eq!(
        map_by_prefix("meta-llama/Meta-Llama-3-8B-Instruct").as_deref(),
        Some("LLM-Research/Meta-Llama-3-8B-Instruct")
    );
}

#[test]
fn unknown_prefix_is_none() {
    assert!(map_by_prefix("unknown/model").is_none());
}

#[test]
fn every_known_owner_is_mapped() {
    assert_eq!(map_by_prefix("Qwen/Qwen2").as_deref(), Some("qwen/Qwen2"));
    assert_eq!(map_by_prefix("mistralai/x").as_deref(), Some("AI-ModelScope/x"));
    assert_eq!(map_by_prefix("google/gemma").as_deref(), Some("AI-ModelScope/gemma"));
    assert_eq!(map_by_prefix("Qwen"), None);
    assert_eq!(map_by_prefix("qwen/Qwen2"), None);
}

#[test]
fn mapping_goes_from_given_to_known_to_searched() {
    let step = resolve_modelscope_id("Qwen/x", Some("mine/x"), false, false, None, None);
    assert!(matches!(step, MappingStep::Found(id) if id == "mine/x"));
    let step = resolve_modelscope_id("Qwen/x", None, false, false, None, None);
    assert!(matches!(step, MappingStep::Found(id) if id == "qwen/x"));
    let step = resolve_modelscope_id("org/x", None, true, true, None, None);
    assert!(matches!(step, MappingStep::Search));
    let one = vec!["a/x".to_string()];
    let step = resolve_modelscope_id("org/x", None, false, false, Some(&one), None);
    assert!(matches!(step, MappingStep::Found(id) if id == "a/x"));
}

#[test]
fn several_candidates_are_the_users_choice() {
    let many = vec!["a/x".to_string(), "b/x".to_string()];
    let step = resolve_modelscope_id("org/x", None, true, true, Some(&many), None);
    assert!(matches!(step, MappingStep::Ask));
    let step = resolve_modelscope_id("org/x", None, true, true, Some(&many), Some(1));
    assert!(matches!(step, MappingStep::Found(id) if id == "b/x"));
    for (interactive, terminal) in [(false, true), (true, false)] {
        match resolve_modelscope_id("org/x", None, interactive, terminal, Some(&many), None) {
            MappingStep::Fail(error) => assert_eq!(
                error.message(),
                "model mapping is ambiguous for 'org/x'. Pass --modelscope-id or rerun with \
                 --interactive in a TTY. Candidates: a/x, b/x"
            ),
            other => panic!("{other:?}"),
        }
    }
    match resolve_modelscope_id("org/x", None, true, true, Some(&vec![]), None) {
        MappingStep::Fail(error) => assert_eq!(
            error.message(),
            "no ModelScope mapping found for 'org/x'. Pass --modelscope-id to choose the \
             target repository."
        ),
        other => panic!("{other:?}"),
    }
}

fn result(source: SourceKind, millis: u64) -> ProbeResult {
    ProbeResult {
        source,
        latency: Some(Latency::from_millis(millis)),
        error: None,
    }
}

#[test]
fn prefers_fast_hugging_face_under_threshold() {
    let results = vec![
        ProbeResult {
            source: SourceKind::HuggingFace,
            latency: Some(Latency::from_millis(100)),
            error: None,
        },
        ProbeResult {
            source: SourceKind::ModelScope,
            latency: Some(Latency::from_millis(10)),
            error: None,
        },
    ];
    assert_eq!(choose_best(&results).unwrap(), SourceKind::HuggingFace);
}

#[test]
fn chooses_lowest_latency_when_hf_is_slow() {
    let results = vec![
        ProbeResult {
            source: SourceKind::HuggingFace,
            latency: Some(Latency::from_millis(300)),
            error: None,
        },
        ProbeResult {
            source: SourceKind::HfMirror,
            latency: Some(Latency::from_millis(80)),
            error: None,
        },
    ];
    assert_eq!(choose_best(&results).unwrap(), SourceKind::HfMirror);
}

#[test]
fn the_threshold_and_ties_are_exact() {
    let at = vec![result(SourceKind::ModelScope, 1), result(SourceKind::HuggingFace, 200)];
    assert_eq!(choose_best(&at).unwrap(), SourceKind::HuggingFace);
    let above = vec![
        result(SourceKind::ModelScope, 1),
        ProbeResult {
            source: SourceKind::HuggingFace,
            latency: Some(Latency { nanos: 200_000_001 }),
            error: None,
        },
    ];
    assert_eq!(choose_best(&above).unwrap(), SourceKind::ModelScope);
    let tie = vec![result(SourceKind::HfMirror, 90), result(SourceKind::ModelScope, 90)];
    assert_eq!(choose_best(&tie).unwrap(), SourceKind::HfMirror);
}

#[test]
fn without_an_answer_there_is_no_source() {
    let results = vec![unavailable(SourceKind::HuggingFace, "timeout")];
    assert!(!results[0].is_available());
    let error = choose_best(&results).unwrap_err();
    assert!(matches!(error, MgetError::NoAvailableSource));
    assert_eq!(error.message(), "no available source after network probing");
    assert!(choose_best(&[]).is_err());
}

#[test]
fn datasets_are_not_looked_for_at_modelscope() {
    let dataset = vec![SourceKind::HuggingFace, SourceKind::HfMirror];
    assert_eq!(sources_to_probe(RepoType::Dataset), dataset);
    let model = vec![SourceKind::HuggingFace, SourceKind::HfMirror, SourceKind::ModelScope];
    assert_eq!(sources_to_probe(RepoType::Model), model);
    let step = select_source(SourceChoice::Auto, RepoType::Dataset, None);
    assert!(matches!(step, RouteStep::Probe(sources) if sources == dataset));
    let results = vec![result(SourceKind::HfMirror, 500)];
    let step = select_source(SourceChoice::Auto, RepoType::Dataset, Some(&results));
    assert!(matches!(step, RouteStep::Use(SourceKind::HfMirror)));
    let step = select_source(SourceChoice::Modelscope, RepoType::Dataset, None);
    assert!(matches!(step, RouteStep::Use(SourceKind::ModelScope)));
    let step = select_source(SourceChoice::Auto, RepoType::Model, Some(&vec![]));
    assert!(matches!(step, RouteStep::Fail(MgetError::NoAvailableSource)));
}

#[test]
fn statuses_decide_about_a_probe() {
    for code in [200, 204, 301, 308, 399, 405] {
        assert!(is_probe_success(code), "{code}");
        assert!(answered(SourceKind::HfMirror, code, Latency::from_millis(7)).is_available());
    }
    for code in [100, 199, 400, 403, 404, 406, 500, 999] {
        assert!(!is_probe_success(code), "{code}");
    }
    let refused = answered(SourceKind::ModelScope, 404, Latency::from_millis(7));
    assert!(!refused.is_available());
    assert_eq!(refused.error.as_deref(), Some("HTTP 404 Not Found"));
    let odd = answered(SourceKind::ModelScope, 599, Latency::from_millis(7));
    assert_eq!(odd.error.as_deref(), Some("HTTP 599 <unknown status code>"));
}

#[test]
fn a_diagnosis_shows_every_source() {
    let results = vec![
        ProbeResult {
            source: SourceKind::HuggingFace,
            latency: Some(Latency { nanos: 12_999_999 }),
            error: None,
        },
        unavailable(SourceKind::HfMirror, "HTTP 503 Service Unavailable"),
        ProbeResult {
            source: SourceKind::ModelScope,
            latency: None,
            error: None,
        },
    ];
    assert_eq!(
        ping_lines(&results),
        vec![
            "* Hugging Face: 12ms (available)",
            "* HF Mirror: unavailable (HTTP 503 Service Unavailable)",
            "* ModelScope: unavailable (unknown error)",
        ]
    );
    assert_eq!(recommendation(SourceKind::HuggingFace), "Recommended source: Hugging Face");
}
