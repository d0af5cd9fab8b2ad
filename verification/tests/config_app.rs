use kiwix_chat::config::{Autodetect, DetectStep};
use kiwix_chat::config::{autodetect_failure, llm_autodetect_urls, probe_note, Cli};
use kiwix_chat::kiwix::request::{article_url, catalog_url, client_base, search_page_length, search_query, search_url};

#[test]
fn kiwix_base_drops_trailing_slashes() {
    let cli = Cli {
        kiwix_url: "http://localhost:8080//".to_string(),
        llm_url: None,
        model: None,
        lang: "eng".to_string(),
        max_rounds: 6,
        verbose: false,
    };
    assert_eq!(cli.kiwix_base(), "http://localhost:8080");
}

#[test]
fn autodetection_messages() {
    assert_eq!(llm_autodetect_urls(), vec!["http://localhost:8080/v1", "http://localhost:11434/v1"]);
    assert_eq!(probe_note("u", &Ok(vec!["m".to_string()])), None);
    assert_eq!(probe_note("u", &Ok(vec![])), Some("u: reachable but no models loaded".to_string()));
    assert_eq!(probe_note("u", &Err("refused".to_string())), Some("u: refused".to_string()));
    assert_eq!(
        autodetect_failure(None),
        "could not autodetect an LLM backend on http://localhost:8080/v1, http://localhost:11434/v1. Last error: none. Start llama.cpp or Ollama, or pass --llm-url."
    );
}

#[test]
fn builds_kiwix_urls() {
    assert_eq!(client_base("http://k:1/"), "http://k:1");
    assert_eq!(search_url("http://k"), "http://k/search");
    assert_eq!(catalog_url("http://k"), "http://k/catalog/v2/entries");
    assert_eq!(article_url("http://k", "w", "/A/Ada"), "http://k/raw/w/content/A/Ada");
    assert_eq!(search_page_length(0), 1);
    assert_eq!(search_page_length(500), 140);
    let q = search_query("ada", "eng", 8);
    assert_eq!(q[2], ("pageLength".to_string(), "8".to_string()));
}

#[test]
fn autodetect_uses_first_candidate_with_models() {
    let mut d = Autodetect::new();
    assert_eq!(d.next(), DetectStep::Probe("http://localhost:8080/v1".to_string()));
    d.probed(Err("connection refused".to_string()), None);
    assert_eq!(d.next(), DetectStep::Probe("http://localhost:11434/v1".to_string()));
    d.probed(Ok(vec!["llama3".to_string(), "qwen".to_string()]), None);
    assert_eq!(
        d.next(),
        DetectStep::Use("http://localhost:11434/v1".to_string(), "llama3".to_string())
    );
}

#[test]
fn autodetect_first_answer_wins_with_explicit_model() {
    let mut d = Autodetect::new();
    d.probed(Ok(vec!["a".to_string()]), Some("mine".to_string()));
    assert_eq!(d.next(), DetectStep::Use("http://localhost:8080/v1".to_string(), "mine".to_string()));
}

#[test]
fn autodetect_fails_with_last_error() {
    let mut d = Autodetect::new();
    d.probed(Err("refused".to_string()), None);
    d.probed(Ok(vec![]), None);
    assert_eq!(
        d.next(),
        DetectStep::Fail(
            "could not autodetect an LLM backend on http://localhost:8080/v1, http://localhost:11434/v1. \
             Last error: http://localhost:11434/v1: reachable but no models loaded. Start llama.cpp or Ollama, or pass --llm-url."
                .to_string()
        )
    );
}
