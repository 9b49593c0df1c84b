use grepplus::laser::{split_identifier, tokenize, Expander, SynonymEntry};

#[test]
fn splits_camel_case() {
    let parts = split_identifier("handleSessionRefresh");
    assert!(parts.contains(&"handle".to_string()));
    assert!(parts.contains(&"session".to_string()));
    assert!(parts.contains(&"refresh".to_string()));
}

#[test]
fn splits_snake_and_dots() {
    assert_eq!(split_identifier("session_refresh"), vec!["session", "refresh"]);
    assert_eq!(split_identifier("a.b-c__d"), vec!["a", "b", "c", "d"]);
    assert_eq!(split_identifier("HTTPServer"), vec!["httpserver"]);
}

#[test]
fn tokenizes_on_non_word_characters() {
    assert_eq!(tokenize("retry logic, on_error!"), vec!["retry", "logic", "on_error"]);
    assert!(tokenize("  ").is_empty());
}

#[test]
fn expansion_is_sorted_and_unique() {
    let e = Expander::new(vec![SynonymEntry {
        term: "retry".to_string(),
        synonyms: vec!["backoff".to_string(), "attempt".to_string()],
    }]);
    let terms = e.expand("Retry retryPolicy");
    assert_eq!(terms, vec!["Retry", "attempt", "backoff", "policy", "retry", "retryPolicy"]);
}

#[test]
fn expander_reads_toml_table() {
    let e = Expander::from_toml("retry = [\"backoff\", \"reattempt\"]\nauth = [\"login\"]\n").unwrap();
    let terms = e.expand("retry logic");
    assert!(terms.iter().any(|t| t == "backoff"));
    assert!(terms.iter().any(|t| t == "logic"));
    assert!(Expander::from_toml("retry = 3").is_err());
}
