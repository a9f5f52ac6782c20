use searchmark::encoding::encode_fragment;
use searchmark::lifecycle::{http_status, step, store_outcome_status, StoreOpEvent, StoreOpState};
use searchmark::query::{classify_query, get_command_from_query_string, ParsedQuery, SearchBy};
use searchmark::redirect::{construct_google_search_url, search};
use searchmark::store::{BookmarkStore, StoreError};

#[test]
fn command_of_query_without_space_is_whole_query() {
    assert_eq!(get_command_from_query_string("rust"), "rust");
    assert_eq!(get_command_from_query_string(""), "");
}

#[test]
fn command_is_prefix_before_first_space() {
    assert_eq!(get_command_from_query_string("cargo build now"), "cargo");
    assert_eq!(get_command_from_query_string("a b"), "a");
}

#[test]
fn leading_space_yields_empty_command() {
    assert_eq!(get_command_from_query_string(" trailing"), "");
}

#[test]
fn classify_spots_a_command_token() {
    match classify_query("wiki rust systems") {
        ParsedQuery::Command { token } => assert_eq!(token, "wiki"),
        ParsedQuery::PlainQuery => panic!("a spaced query must classify as a command"),
    }
    assert!(matches!(classify_query("rust"), ParsedQuery::PlainQuery));
}

#[test]
fn redirect_encodes_space_in_query() {
    assert_eq!(
        construct_google_search_url("rust systems"),
        "https://google.com/search?q=rust%20systems"
    );
}

#[test]
fn redirect_leaves_ampersand_and_equals_unescaped() {
    let url = construct_google_search_url("a&b=c");
    assert_eq!(url, "https://google.com/search?q=a&b=c");
    assert!(url.contains('&') && url.contains('='));
}

#[test]
fn encoder_rewrites_the_unsafe_set() {
    assert_eq!(encode_fragment("a \"b\"`"), "a%20%22b%22%60");
    assert_eq!(encode_fragment("<x>"), "%3Cx%3E");
    assert_eq!(encode_fragment("\u{7}"), "%07");
    assert_eq!(encode_fragment("\u{7f}"), "%7F");
}

#[test]
fn encoder_rewrites_non_ascii_bytes() {
    assert_eq!(encode_fragment("café"), "caf%C3%A9");
}

#[test]
fn encoder_leaves_safe_bytes_identical() {
    assert_eq!(encode_fragment("abc&=?/~100%25"), "abc&=?/~100%25");
}

#[test]
fn encoding_then_standard_percent_decoding_restores_the_query() {
    for raw in ["hello world", "tabs\tand \"quotes\"", "caf\u{e9} <ok>`"] {
        let encoded = encode_fragment(raw);
        let decoded: Vec<u8> = percent_encoding::percent_decode_str(&encoded).collect();
        assert_eq!(decoded, raw.as_bytes());
    }
}

#[test]
fn search_handler_signals_a_found_redirect() {
    let request = SearchBy {
        query: String::from("rust systems"),
    };
    let response = search(&request);
    assert_eq!(response.status, 302);
    assert_eq!(response.location, "https://google.com/search?q=rust%20systems");
}

#[test]
fn upsert_twice_with_same_value_keeps_one_record() {
    let mut store = BookmarkStore::new();
    store.upsert(String::from("k"), String::from("v"));
    store.upsert(String::from("k"), String::from("v"));
    let records = store.enumerate_all();
    assert_eq!(records.len(), 1);
    assert_eq!(records[0].key, "k");
    assert_eq!(records[0].value, "v");
}

#[test]
fn upsert_replaces_and_keeps_only_the_latest_value() {
    let mut store = BookmarkStore::new();
    store.upsert(String::from("k"), String::from("first"));
    store.upsert(String::from("other"), String::from("kept"));
    store.upsert(String::from("k"), String::from("second"));
    let records = store.enumerate_all();
    assert_eq!(records.len(), 2);
    let k_values: Vec<&str> = records
        .iter()
        .filter(|r| r.key == "k")
        .map(|r| r.value.as_str())
        .collect();
    assert_eq!(k_values, ["second"]);
    assert!(records.iter().any(|r| r.key == "other" && r.value == "kept"));
}

#[test]
fn added_bookmark_shows_up_in_enumeration() {
    let mut store = BookmarkStore::new();
    store.upsert(String::from("home"), String::from("http://example.com"));
    let records = store.enumerate_all();
    assert!(records
        .iter()
        .any(|r| r.key == "home" && r.value == "http://example.com"));
}

#[test]
fn committed_run_reports_success() {
    let mut state = StoreOpState::Idle;
    state = step(state, StoreOpEvent::OpRequested);
    assert_eq!(state, StoreOpState::Acquiring);
    state = step(state, StoreOpEvent::ConnectionGranted);
    assert_eq!(state, StoreOpState::Acquired);
    state = step(state, StoreOpEvent::CallDispatched);
    assert_eq!(state, StoreOpState::Executing);
    state = step(state, StoreOpEvent::BackendOk);
    assert_eq!(state, StoreOpState::Committed);
    assert_eq!(http_status(state), 200);
}

#[test]
fn exhausted_pool_ends_in_a_server_error() {
    let mut state = StoreOpState::Idle;
    state = step(state, StoreOpEvent::OpRequested);
    state = step(state, StoreOpEvent::NoConnectionFree);
    assert_eq!(state, StoreOpState::PoolExhausted);
    assert_eq!(http_status(state), 500);
    // A late backend report cannot revive a finished operation.
    assert_eq!(step(state, StoreOpEvent::BackendOk), StoreOpState::PoolExhausted);
}

#[test]
fn backend_failure_ends_failed_with_server_error() {
    let mut state = StoreOpState::Executing;
    state = step(state, StoreOpEvent::BackendFailed);
    assert_eq!(state, StoreOpState::Failed);
    assert_eq!(http_status(state), 500);
}

#[test]
fn store_outcomes_translate_to_statuses() {
    let ok: Result<(), StoreError> = Ok(());
    let exhausted: Result<(), StoreError> = Err(StoreError::PoolExhausted);
    let backend: Result<(), StoreError> = Err(StoreError::BackendFailure);
    assert_eq!(store_outcome_status(&ok), 200);
    assert_eq!(store_outcome_status(&exhausted), 500);
    assert_eq!(store_outcome_status(&backend), 500);
}
