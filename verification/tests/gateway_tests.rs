//! The gateway: chunks, events, cache, keys, access, relays and the dashboard.

use axum::http::{HeaderMap, HeaderValue};
use one_slot::clock::{unix_seconds, WallTime, NANOS_PER_SECOND};
use one_slot::digest::{cache_key, hash_secret};
use one_slot::error::{bind_failed, AppError, GatewayStep};
use one_slot::gateway::access::{
    admit_client, bearer_token, header_value, require_admin, require_client_api_key, QueryParams,
};
use one_slot::gateway::admin::{
    admin_api_keys, admin_cache, admin_create_api_key, admin_delete_api_key, admin_delete_cache,
};
use one_slot::gateway::api_keys::{
    api_key_entries, create_api_key, issue_api_key, key_from, key_id, key_name, key_prefix,
    list_keys, load_api_keys, new_api_key, parse_key_list, record_api_key, ApiKeyEntry, ApiKeys,
};
use one_slot::gateway::cache::{
    cache_entries, cache_get, split_expired, CacheEntry, ResponseCache, CACHE_TTL_NANOS,
};
use one_slot::gateway::chunking::{
    char_budget_end, nearest_semantic_boundary, skip_leading_whitespace, split_semantic,
    split_text, MAX_CHUNK_CHARS, MAX_INPUT_BYTES,
};
use one_slot::gateway::compress::{compress, start_compress, CompressStart};
use one_slot::gateway::dashboard::{
    accounts_answer, current_state, fetch_accounts_json, state_event, state_object, AccountsFetch,
};
use one_slot::gateway::relay::{
    status_message, succeeded, worker_status, Relay, RelayAction, RelayEvent,
};
use one_slot::gateway::routes::{
    account_url, forwarded_content_type, gateway_settings, item_url, switched_on, GatewayEnv,
};
use one_slot::json::error_json;
use one_slot::sse::{drain_sse_data, SseEvent};

const ABC: &str = "ba7816bf8f01cfea414140de5dae2223b00361a396177a9cb410ff61f20015ad";
const EMPTY: &str = "e3b0c44298fc1c149afbf4c8996fb92427ae41e4649b934ca495991b7852b855";

fn at(seconds: u64) -> WallTime {
    WallTime { before_epoch: false, seconds, nanos: 0 }
}

fn headers(pairs: &[(&'static str, &'static str)]) -> HeaderMap {
    let mut map = HeaderMap::new();
    for (name, value) in pairs {
        map.insert(*name, HeaderValue::from_static(value));
    }
    map
}

fn query(pairs: &[(&str, &str)]) -> QueryParams {
    let mut params = QueryParams::new();
    for (name, value) in pairs {
        params.set(name.to_string(), value.to_string());
    }
    params
}

fn pair(event: &SseEvent) -> (Option<&str>, &str) {
    (event.name.as_deref(), event.data.as_str())
}

fn texts(chunks: &[Vec<u8>]) -> Vec<String> {
    chunks.iter().map(|c| String::from_utf8(c.clone()).unwrap()).collect()
}

// ------------------------------------------------------------------- clocks

#[test]
fn unix_seconds_are_whole_and_not_negative() {
    assert_eq!(unix_seconds(WallTime { before_epoch: false, seconds: 7, nanos: 999_999_999 }), 7);
    assert_eq!(unix_seconds(WallTime { before_epoch: true, seconds: 7, nanos: 1 }), 0);
}

// ------------------------------------------------------------------- errors

#[test]
fn errors_are_answered_with_their_status_and_message() {
    let reply = AppError::BadRequest("a \"b\"".to_string()).into_response();
    assert_eq!((reply.status, reply.body.as_str()), (400, "{\"error\":\"a \\\"b\\\"\"}"));
    let reply = AppError::Unauthorized("no".to_string()).into_response();
    assert_eq!((reply.status, reply.body.as_str()), (401, "{\"error\":\"no\"}"));
    let reply = AppError::Internal("oh".to_string()).into_response();
    assert_eq!((reply.status, reply.body.as_str()), (500, "{\"error\":\"oh\"}"));
}

#[test]
fn failed_steps_say_what_failed() {
    let cases = [
        (GatewayStep::BuildClient, "build HTTP client failed: x"),
        (GatewayStep::Serve, "server failed: x"),
        (GatewayStep::Chat, "worker chat request failed: x"),
        (GatewayStep::Fetch, "worker request failed: x"),
        (GatewayStep::FetchBody, "worker body failed: x"),
        (GatewayStep::ListAccounts, "worker admin request failed: x"),
        (GatewayStep::ListAccountsBody, "worker admin body failed: x"),
        (GatewayStep::AddAccounts, "worker add accounts failed: x"),
        (GatewayStep::AddAccountsBody, "worker add accounts body failed: x"),
        (GatewayStep::DeleteAccount, "worker delete account failed: x"),
    ];
    for (step, message) in cases {
        match step.failed("x") {
            AppError::Internal(m) => assert_eq!(m, message),
            other => panic!("{other:?}"),
        }
    }
    assert_eq!(bind_failed("0.0.0.0:80", "in use"), "bind 0.0.0.0:80 failed: in use");
}

#[test]
fn error_json_is_escaped() {
    assert_eq!(error_json("line\nbreak".to_string()), "{\"error\":\"line\\nbreak\"}");
}

// ------------------------------------------------------------------ digests

#[test]
fn digests_are_sha256_in_hexadecimal() {
    assert_eq!(hash_secret("abc"), ABC);
    assert_eq!(cache_key(b"abc"), ABC);
    assert_eq!(cache_key(b""), EMPTY);
}

// ----------------------------------------------------------------- chunking

#[test]
fn leading_whitespace_is_skipped_by_bytes() {
    assert_eq!(skip_leading_whitespace("  x", 0), 2);
    assert_eq!(skip_leading_whitespace("\u{3000}x", 0), 3);
    assert_eq!(skip_leading_whitespace("ab  c", 2), 4);
    assert_eq!(skip_leading_whitespace("   ", 1), 3);
    assert_eq!(skip_leading_whitespace("", 0), 0);
}

#[test]
fn budget_counts_characters_and_gives_bytes() {
    assert_eq!(char_budget_end("h\u{e9}llo", 0, 2), 3);
    assert_eq!(char_budget_end("h\u{e9}llo", 3, 2), 5);
    assert_eq!(char_budget_end("h\u{e9}llo", 0, 5), 6);
    assert_eq!(char_budget_end("h\u{e9}llo", 0, 50), 6);
}

#[test]
fn boundary_is_the_last_sentence_or_paragraph_end() {
    assert_eq!(nearest_semantic_boundary("a.b\n\nc"), Some(5));
    assert_eq!(nearest_semantic_boundary("a\n\nb. c"), Some(5));
    assert_eq!(nearest_semantic_boundary("\u{e9}. x"), Some(3));
    assert_eq!(nearest_semantic_boundary("\n\n\n"), Some(3));
    assert_eq!(nearest_semantic_boundary("none here\n"), None);
    assert_eq!(nearest_semantic_boundary(""), None);
}

#[test]
fn text_is_cut_behind_sentences() {
    assert_eq!(
        texts(&split_text("  Hello world. Next one here", 15)),
        vec!["Hello world.", "Next one here"]
    );
}

#[test]
fn text_without_boundary_is_cut_at_the_budget() {
    assert_eq!(texts(&split_text("abcdefghij", 4)), vec!["abcd", "efgh", "ij"]);
}

#[test]
fn chunks_keep_all_that_is_visible() {
    let text = "One. Two two.\n\n  Three three three three.\nfour";
    for max in 1..60 {
        let chunks = texts(&split_text(text, max));
        let joined: String = chunks.concat();
        let seen = |s: &str| s.chars().filter(|c| !c.is_whitespace()).collect::<String>();
        assert_eq!(seen(&joined), seen(text));
        for chunk in &chunks {
            assert!(!chunk.is_empty() && chunk.chars().count() <= max);
            assert!(!chunk.starts_with(char::is_whitespace));
        }
        for chunk in &chunks[..chunks.len() - 1] {
            assert!(
                chunk.ends_with('.') || chunk.ends_with("\n\n") || chunk.chars().count() == max
            );
        }
    }
}

#[test]
fn bodies_are_chunked_or_refused() {
    match split_semantic(b"") {
        Err(AppError::BadRequest(m)) => assert_eq!(m, "payload is empty"),
        _ => panic!("an empty body was taken"),
    }
    match split_semantic(&[0x61, 0xff]) {
        Err(AppError::BadRequest(m)) => assert_eq!(m, "payload must be valid UTF-8 text"),
        _ => panic!("bytes were taken"),
    }
    assert_eq!(split_semantic(b" \n ").unwrap().len(), 0);
    let long = "a".repeat(MAX_CHUNK_CHARS + 1);
    let chunks = split_semantic(long.as_bytes()).unwrap();
    assert_eq!(chunks.iter().map(Vec::len).collect::<Vec<_>>(), vec![MAX_CHUNK_CHARS, 1]);
    assert_eq!(MAX_CHUNK_CHARS, 48_000);
    assert_eq!(MAX_INPUT_BYTES, 4_000_000);
}

// ------------------------------------------------------------------- events

#[test]
fn whole_frames_are_drained_and_the_rest_stays() {
    let mut buffer = "event: delta\ndata: one\n\n: ping\n\ndata:  two\r\ndata:three\n\ndata: fo".to_string();
    assert_eq!(drain_sse_data(&mut buffer), vec!["one", "twothree"]);
    assert_eq!(buffer, "data: fo");
    buffer.push_str("ur\n\n");
    assert_eq!(drain_sse_data(&mut buffer), vec!["four"]);
    assert_eq!(buffer, "");
}

#[test]
fn draining_in_pieces_drains_the_same() {
    let whole = "data: a\n\ndata: b\ndata: c\n\n\n\ndata:\n\ndata: d\n\nrest";
    for cut in 0..=whole.len() {
        let mut all = whole.to_string();
        let expected = drain_sse_data(&mut all);
        let mut buffer = whole[..cut].to_string();
        let mut got = drain_sse_data(&mut buffer);
        buffer.push_str(&whole[cut..]);
        got.extend(drain_sse_data(&mut buffer));
        assert_eq!(got, expected);
        assert_eq!(buffer, all);
        assert!(!buffer.contains("\n\n"));
        assert!(got.iter().all(|d| !d.is_empty()));
    }
}

#[test]
fn written_events_are_read_back() {
    let mut buffer = String::new();
    for data in ["a b ", "c", "[DONE]"] {
        buffer.push_str(&format!("event: delta\ndata: {data}\n\n"));
    }
    assert_eq!(drain_sse_data(&mut buffer), vec!["a b ", "c", "[DONE]"]);
    assert_eq!(buffer, "");
}

// -------------------------------------------------------------------- cache

#[test]
fn stored_text_is_read_back_for_a_day() {
    let mut cache = ResponseCache::new();
    assert_eq!(cache_get(&mut cache, "k", 0), None);
    cache.store("k".to_string(), "v".to_string(), at(1), 10);
    assert_eq!(cache_get(&mut cache, "k", 10), Some("v".to_string()));
    assert_eq!(cache_get(&mut cache, "k", 9 + CACHE_TTL_NANOS), Some("v".to_string()));
    assert_eq!(cache_get(&mut cache, "k", 10 + CACHE_TTL_NANOS), None);
    assert_eq!(cache_get(&mut cache, "k", 10), None);
    assert_eq!(CACHE_TTL_NANOS, 86_400 * NANOS_PER_SECOND);
}

#[test]
fn storing_touches_one_key() {
    let mut cache = ResponseCache::new();
    cache.store("a".to_string(), "1".to_string(), at(1), 0);
    cache.store("b".to_string(), "2".to_string(), at(1), 0);
    cache.store("a".to_string(), "3".to_string(), at(1), 0);
    assert_eq!(cache_get(&mut cache, "a", 5), Some("3".to_string()));
    assert_eq!(cache_get(&mut cache, "b", 5), Some("2".to_string()));
    cache.remove("a");
    assert_eq!(cache_get(&mut cache, "a", 5), None);
    assert_eq!(cache_get(&mut cache, "b", 5), Some("2".to_string()));
}

#[test]
fn listing_is_sorted_and_forgets_what_expired() {
    let mut cache = ResponseCache::new();
    cache.store("old".to_string(), "1".to_string(), at(1), 0);
    cache.store("b".to_string(), "2".to_string(), at(2), NANOS_PER_SECOND);
    let before = WallTime { before_epoch: true, seconds: 3, nanos: 0 };
    cache.store("a".to_string(), "3".to_string(), before, 2 * NANOS_PER_SECOND);
    let infos = cache_entries(&mut cache, CACHE_TTL_NANOS);
    let got: Vec<(&str, u64, u64)> = infos
        .iter()
        .map(|i| (i.key.as_str(), i.created_at_unix, i.expires_in_seconds))
        .collect();
    assert_eq!(got, vec![("a", 0, 2), ("b", 2, 1)]);
    assert_eq!(cache_get(&mut cache, "old", 0), None);
    assert_eq!(cache_get(&mut cache, "b", CACHE_TTL_NANOS), Some("2".to_string()));
}

#[test]
fn expired_pairs_are_told_apart() {
    let entry = |expires_at| CacheEntry { value: "v".to_string(), created_at: at(9), expires_at };
    let pairs = vec![
        ("x".to_string(), entry(5)),
        ("y".to_string(), entry(6)),
        ("z".to_string(), entry(5 + 3 * NANOS_PER_SECOND)),
    ];
    let (infos, expired) = split_expired(&pairs, 5);
    assert_eq!(expired, vec!["x"]);
    let got: Vec<(&str, u64)> = infos.iter().map(|i| (i.key.as_str(), i.expires_in_seconds)).collect();
    assert_eq!(got, vec![("y", 0), ("z", 3)]);
}

// --------------------------------------------------------------------- keys

#[test]
fn prefix_shows_twelve_characters() {
    assert_eq!(key_prefix("sk-gw-0123456789"), "sk-gw-012345...");
    assert_eq!(key_prefix("\u{e9}\u{e9}"), "\u{e9}\u{e9}...");
    assert_eq!(key_prefix(""), "...");
}

#[test]
fn id_is_the_head_of_the_digest() {
    assert_eq!(key_id(ABC), "ba7816bf8f01cfea");
}

#[test]
fn keys_get_the_name_asked_for_or_a_stand_in() {
    assert_eq!(key_name(Some("  mine ")), "mine");
    assert_eq!(key_name(Some(" \t")), "API key");
    assert_eq!(key_name(None), "API key");
}

#[test]
fn keys_are_made_of_two_parts() {
    assert_eq!(key_from("a", "b"), "sk-gw-a-b");
}

#[test]
fn new_keys_are_two_uuids() {
    let key = new_api_key();
    assert_eq!(key.len(), 79);
    assert!(key.starts_with("sk-gw-"));
    for uuid in [&key[6..42], &key[43..79]] {
        assert_eq!(uuid.as_bytes()[14], b'4');
        assert!("89ab".contains(&uuid[19..20]));
        assert!(uuid.char_indices().all(|(i, c)| match i {
            8 | 13 | 18 | 23 => c == '-',
            _ => c.is_ascii_digit() || ('a'..='f').contains(&c),
        }));
    }
    assert_eq!(&key[42..43], "-");
    assert_ne!(&key[6..42], &key[43..79]);
    assert_ne!(key, new_api_key());
}

#[test]
fn key_lists_are_split_at_commas() {
    assert_eq!(parse_key_list(" a , ,b,"), vec!["a", "b"]);
    assert_eq!(parse_key_list(""), Vec::<String>::new());
}

#[test]
fn listed_keys_are_accepted() {
    let keys = load_api_keys(Some(" abc , ,second"), at(5));
    assert!(keys.accepts(ABC));
    assert!(keys.accepts(&hash_secret("second")));
    assert!(!keys.accepts(&hash_secret("third")));
    let mut infos = api_key_entries(&keys);
    infos.sort_by(|a, b| a.name.cmp(&b.name));
    let got: Vec<(&str, &str, &str, u64)> = infos
        .iter()
        .map(|i| (i.id.as_str(), i.prefix.as_str(), i.name.as_str(), i.created_at_unix))
        .collect();
    let second = hash_secret("second");
    assert_eq!(
        got,
        vec![
            ("ba7816bf8f01cfea", "abc...", "Env key 1", 5),
            (&second[..16], "second...", "Env key 2", 5),
        ]
    );
    assert!(load_api_keys(None, at(5)).is_empty());
    assert!(load_api_keys(Some(" , "), at(5)).is_empty());
}

#[test]
fn last_of_two_same_keys_stays() {
    let keys = load_api_keys(Some("abc,abc"), at(5));
    let infos = api_key_entries(&keys);
    assert_eq!(infos.len(), 1);
    assert_eq!(infos[0].name, "Env key 2");
}

#[test]
fn made_key_is_kept_and_told() {
    let mut keys = ApiKeys::new();
    let made = issue_api_key(&mut keys, Some(" n "), "abc".to_string(), at(8));
    assert_eq!(made.id, "ba7816bf8f01cfea");
    assert_eq!(made.key, "abc");
    assert_eq!(made.prefix, "abc...");
    assert_eq!(made.name, "n");
    assert_eq!(made.created_at_unix, 8);
    assert!(keys.accepts(ABC));
    let other = record_api_key(&mut keys, None, "k".to_string(), "0123456789abcdef99".to_string(), at(1));
    assert_eq!(other.id, "0123456789abcdef");
    assert!(keys.accepts("0123456789abcdef99"));
    assert!(!keys.accepts("0123456789abcdef"));
}

#[test]
fn forgotten_key_is_refused() {
    let mut keys = load_api_keys(Some("abc,second"), at(5));
    keys.remove("ba7816bf8f01cfea");
    assert!(!keys.accepts(ABC));
    assert!(keys.accepts(&hash_secret("second")));
    keys.remove("unknown");
    assert!(!keys.is_empty());
}

#[test]
fn every_key_stands_under_its_id() {
    let mut keys = load_api_keys(Some("a,b,c"), at(1));
    let made = create_api_key(&mut keys, None, at(2));
    assert_eq!(made.id, hash_secret(&made.key)[..16]);
    let ids: Vec<String> = api_key_entries(&keys).into_iter().map(|i| i.id).collect();
    for secret in ["a", "b", "c", made.key.as_str()] {
        assert!(ids.contains(&hash_secret(secret)[..16].to_string()));
    }
    assert_eq!(ids.len(), 4);
    assert_eq!(ids[3], made.id);
}

#[test]
fn keys_are_shown_oldest_first() {
    let entry = |name: &str, seconds| ApiKeyEntry {
        hash: "h".to_string(),
        prefix: "p...".to_string(),
        name: name.to_string(),
        created_at: at(seconds),
    };
    let pairs = vec![
        ("1".to_string(), entry("late", 9)),
        ("2".to_string(), entry("first", 3)),
        ("3".to_string(), entry("second", 3)),
    ];
    let names: Vec<String> = list_keys(&pairs).into_iter().map(|i| i.name).collect();
    assert_eq!(names, vec!["first", "second", "late"]);
}

// ------------------------------------------------------------------- access

#[test]
fn header_values_are_visible_text() {
    let mut map = headers(&[("x-api-key", "k e\ty"), ("empty", "")]);
    map.insert("bytes", HeaderValue::from_bytes(&[0x61, 0xe9]).unwrap());
    assert_eq!(header_value(&map, "x-api-key"), Some("k e\ty".to_string()));
    assert_eq!(header_value(&map, "empty"), None);
    assert_eq!(header_value(&map, "bytes"), None);
    assert_eq!(header_value(&map, "missing"), None);
    assert_eq!(header_value(&map, "X-Api-Key"), Some("k e\ty".to_string()));
    assert_eq!(header_value(&map, "no name"), None);
    assert_eq!(header_value(&map, ""), None);
}

#[test]
fn first_of_several_header_values_counts() {
    let mut map = headers(&[("x-api-key", "one")]);
    map.append("x-api-key", HeaderValue::from_static("two"));
    assert_eq!(header_value(&map, "x-api-key"), Some("one".to_string()));
}

#[test]
fn bearer_token_is_trimmed() {
    assert_eq!(bearer_token(&headers(&[("authorization", "Bearer  t ")])), Some("t".to_string()));
    assert_eq!(bearer_token(&headers(&[("authorization", "Bearer ")])), Some(String::new()));
    assert_eq!(bearer_token(&headers(&[("authorization", "bearer t")])), None);
    assert_eq!(bearer_token(&headers(&[("authorization", "Basic t")])), None);
    assert_eq!(bearer_token(&headers(&[])), None);
}

fn refused<T>(r: Result<T, AppError>) -> String {
    match r {
        Err(AppError::Unauthorized(m)) => m,
        _ => panic!("it was not refused"),
    }
}

#[test]
fn open_gateway_lets_everyone_in() {
    assert!(require_client_api_key(false, &ApiKeys::new(), &headers(&[])).is_ok());
    assert!(admit_client(false, &ApiKeys::new(), Some("h")).is_ok());
}

#[test]
fn closed_gateway_without_keys_lets_nobody_in() {
    let keys = ApiKeys::new();
    assert_eq!(refused(admit_client(true, &keys, None)), "api key required");
    assert_eq!(refused(admit_client(true, &keys, Some(ABC))), "invalid api key");
    assert_eq!(refused(require_client_api_key(true, &keys, &headers(&[]))), "api key required");
}

#[test]
fn kept_key_lets_its_client_in() {
    let keys = load_api_keys(Some("abc"), at(1));
    for require in [false, true] {
        for pairs in [("authorization", "Bearer abc"), ("x-api-key", "abc")] {
            assert!(require_client_api_key(require, &keys, &headers(&[pairs])).is_ok());
        }
        assert_eq!(
            refused(require_client_api_key(require, &keys, &headers(&[("x-api-key", "abd")]))),
            "invalid api key"
        );
        assert_eq!(
            refused(require_client_api_key(require, &keys, &headers(&[]))),
            "api key required"
        );
    }
    let both = headers(&[("authorization", "Bearer no"), ("x-api-key", "abc")]);
    assert_eq!(refused(require_client_api_key(true, &keys, &both)), "invalid api key");
}

#[test]
fn made_key_can_be_presented() {
    let mut keys = ApiKeys::new();
    let made = create_api_key(&mut keys, None, at(1));
    let mut map = HeaderMap::new();
    map.insert("x-api-key", HeaderValue::from_str(&made.key).unwrap());
    assert!(require_client_api_key(true, &keys, &map).is_ok());
}

#[test]
fn forgotten_key_lets_nobody_in() {
    let mut keys = load_api_keys(Some("abc,other"), at(1));
    keys.remove(&ABC[..16]);
    let map = headers(&[("x-api-key", "abc")]);
    assert_eq!(refused(require_client_api_key(false, &keys, &map)), "invalid api key");
    keys.remove(&hash_secret("other")[..16]);
    assert!(require_client_api_key(false, &keys, &map).is_ok());
}

#[test]
fn admin_token_decides() {
    let none = query(&[]);
    assert!(require_admin(None, &headers(&[]), &none).is_ok());
    assert_eq!(refused(require_admin(Some("t"), &headers(&[]), &none)), "admin token required");
    assert!(require_admin(Some("t"), &headers(&[]), &query(&[("admin_token", "t")])).is_ok());
    assert!(require_admin(Some("t"), &headers(&[("x-admin-token", "t")]), &none).is_ok());
    assert!(require_admin(Some("t"), &headers(&[("authorization", "Bearer t")]), &none).is_ok());
    let wrong_first = query(&[("admin_token", "u")]);
    assert_eq!(
        refused(require_admin(Some("t"), &headers(&[("x-admin-token", "t")]), &wrong_first)),
        "admin token required"
    );
}

// ---------------------------------------------------------- administration

#[test]
fn refused_requests_change_nothing() {
    let mut cache = ResponseCache::new();
    cache.store("k".to_string(), "v".to_string(), at(1), 0);
    let mut keys = load_api_keys(Some("abc"), at(1));
    let (h, q) = (headers(&[]), query(&[]));
    let late = 2 * CACHE_TTL_NANOS;
    assert_eq!(refused(admin_cache(Some("t"), &h, &q, &mut cache, late)), "admin token required");
    assert_eq!(
        refused(admin_delete_cache(Some("t"), &h, &q, &mut cache, "k")),
        "admin token required"
    );
    assert_eq!(cache_get(&mut cache, "k", 5), Some("v".to_string()));
    assert_eq!(refused(admin_api_keys(Some("t"), &h, &q, &keys)), "admin token required");
    assert_eq!(
        refused(admin_create_api_key(Some("t"), &h, &q, &mut keys, None, at(2))),
        "admin token required"
    );
    assert_eq!(
        refused(admin_delete_api_key(Some("t"), &h, &q, &mut keys, &ABC[..16])),
        "admin token required"
    );
    assert_eq!(api_key_entries(&keys).len(), 1);
}

#[test]
fn administrators_see_and_change() {
    let mut cache = ResponseCache::new();
    cache.store("k".to_string(), "v".to_string(), at(1), 0);
    let mut keys = ApiKeys::new();
    let (h, q) = (headers(&[("x-admin-token", "t")]), query(&[]));
    assert_eq!(admin_cache(Some("t"), &h, &q, &mut cache, 0).unwrap().len(), 1);
    assert_eq!(admin_delete_cache(Some("t"), &h, &q, &mut cache, "k").unwrap(), 204);
    assert_eq!(admin_cache(Some("t"), &h, &q, &mut cache, 0).unwrap().len(), 0);
    let made = admin_create_api_key(Some("t"), &h, &q, &mut keys, Some("n"), at(2)).unwrap();
    assert_eq!(made.name, "n");
    assert_eq!(admin_api_keys(Some("t"), &h, &q, &keys).unwrap()[0].id, made.id);
    assert_eq!(admin_delete_api_key(Some("t"), &h, &q, &mut keys, &made.id).unwrap(), 204);
    assert!(keys.is_empty());
}

// -------------------------------------------------------------------- relay

fn forwarded(action: RelayAction) -> Vec<(Option<String>, String)> {
    match action {
        RelayAction::Forward(events) => events.into_iter().map(|e| (e.name, e.data)).collect(),
        _ => panic!("nothing was forwarded"),
    }
}

fn posted(action: RelayAction) -> (String, String, Vec<u8>) {
    match action {
        RelayAction::Post { index, total, body } => (index, total, body),
        _ => panic!("nothing was posted"),
    }
}

fn failed(action: RelayAction) -> (Option<String>, String) {
    match action {
        RelayAction::Fail(event) => (event.name, event.data),
        _ => panic!("it did not fail"),
    }
}

fn delta(data: &str) -> (Option<String>, String) {
    (Some("delta".to_string()), data.to_string())
}

#[test]
fn chunks_are_posted_in_order_and_what_was_sent_is_kept() {
    let mut relay = Relay::new("k".to_string(), vec![b"one".to_vec(), b"two".to_vec()]);
    assert_eq!(
        posted(relay.step(RelayEvent::Started)),
        ("0".to_string(), "2".to_string(), b"one".to_vec())
    );
    assert!(forwarded(relay.step(RelayEvent::Responded(200))).is_empty());
    let first = b"event: delta\ndata: hel".to_vec();
    assert!(forwarded(relay.step(RelayEvent::Received(first))).is_empty());
    let second = b"lo\n\nevent: done\ndata: [DONE]\n\n".to_vec();
    assert_eq!(forwarded(relay.step(RelayEvent::Received(second))), vec![delta("hello")]);
    assert_eq!(
        posted(relay.step(RelayEvent::StreamEnded)),
        ("1".to_string(), "2".to_string(), b"two".to_vec())
    );
    assert!(forwarded(relay.step(RelayEvent::Responded(299))).is_empty());
    let bytes = vec![b'd', b'a', b't', b'a', b':', 0xff, b'\n', b'\n', b'x'];
    assert_eq!(forwarded(relay.step(RelayEvent::Received(bytes))), vec![delta("\u{fffd}")]);
    match relay.step(RelayEvent::StreamEnded) {
        RelayAction::Finish { key, value, event } => {
            assert_eq!(key, "k");
            assert_eq!(value, "hello\u{fffd}");
            assert_eq!(pair(&event), (Some("done"), "[DONE]"));
        }
        _ => panic!("the relay did not finish"),
    }
}

#[test]
fn unfinished_frames_do_not_cross_chunks() {
    let mut relay = Relay::new("k".to_string(), vec![vec![1], vec![2]]);
    relay.step(RelayEvent::Started);
    relay.step(RelayEvent::Responded(200));
    relay.step(RelayEvent::Received(b"data: lost".to_vec()));
    relay.step(RelayEvent::StreamEnded);
    relay.step(RelayEvent::Responded(200));
    let got = forwarded(relay.step(RelayEvent::Received(b"data: kept\n\n".to_vec())));
    assert_eq!(got, vec![delta("kept")]);
}

#[test]
fn answers_may_come_in_pieces() {
    let whole = "data: a\n\ndata: [DONE]\n\ndata: b\n\n";
    for cut in 0..=whole.len() {
        let mut relay = Relay::new("k".to_string(), vec![vec![1]]);
        let mut events = relay.absorb(&whole[..cut]);
        events.extend(relay.absorb(&whole[cut..]));
        let got: Vec<(Option<&str>, &str)> = events.iter().map(pair).collect();
        assert_eq!(got, vec![(Some("delta"), "a"), (Some("delta"), "b")]);
    }
}

#[test]
fn written_deltas_pass_through() {
    let mut relay = Relay::new("k".to_string(), vec![vec![1]]);
    relay.step(RelayEvent::Started);
    relay.step(RelayEvent::Responded(200));
    let written = "event: delta\ndata: a \n\nevent: delta\ndata: b\n\n".as_bytes().to_vec();
    assert_eq!(
        forwarded(relay.step(RelayEvent::Received(written))),
        vec![delta("a "), delta("b")]
    );
    assert!(matches!(
        relay.step(RelayEvent::StreamEnded),
        RelayAction::Finish { value, .. } if value == "a b"
    ));
}

#[test]
fn failures_end_the_relay_with_an_error() {
    let mut relay = Relay::new("k".to_string(), vec![vec![1]]);
    let error = Some("error".to_string());
    assert_eq!(
        failed(relay.step(RelayEvent::RequestFailed)),
        (error.clone(), "worker request failed".to_string())
    );
    assert_eq!(
        failed(relay.step(RelayEvent::StreamFailed)),
        (error.clone(), "worker stream failed".to_string())
    );
    assert_eq!(
        failed(relay.step(RelayEvent::Responded(503))),
        (error, "worker status 503 Service Unavailable".to_string())
    );
}

#[test]
fn relay_without_chunks_finishes_at_once() {
    let mut relay = Relay::new("k".to_string(), Vec::new());
    assert!(matches!(
        relay.step(RelayEvent::Started),
        RelayAction::Finish { value, .. } if value.is_empty()
    ));
}

#[test]
fn status_is_told_with_its_reason() {
    assert_eq!(worker_status(404), "worker status 404 Not Found");
    assert_eq!(worker_status(599), "worker status 599 <unknown status code>");
    assert_eq!(status_message("x"), "worker status x");
}

// ---------------------------------------------------------------- compress

#[test]
fn repeated_request_gets_what_was_sent() {
    let mut cache = ResponseCache::new();
    let mut relay = match start_compress(&mut cache, "k".to_string(), b" text", 0).unwrap() {
        CompressStart::Relayed(relay) => relay,
        CompressStart::Cached(_) => panic!("nothing was cached"),
    };
    assert_eq!(posted(relay.step(RelayEvent::Started)).2, b"text".to_vec());
    relay.step(RelayEvent::Responded(200));
    relay.step(RelayEvent::Received(b"data: a\n\ndata: b\n\n".to_vec()));
    match relay.step(RelayEvent::StreamEnded) {
        RelayAction::Finish { key, value, .. } => cache.store(key, value, at(1), 5),
        _ => panic!("the relay did not finish"),
    }
    match start_compress(&mut cache, "k".to_string(), b" text", 6).unwrap() {
        CompressStart::Cached(events) => {
            let got: Vec<(Option<&str>, &str)> = events.iter().map(pair).collect();
            assert_eq!(got, vec![(Some("compressed"), "ab"), (Some("done"), "[DONE]")]);
        }
        CompressStart::Relayed(_) => panic!("it was relayed again"),
    }
}

#[test]
fn clients_are_checked_before_the_cache() {
    let mut cache = ResponseCache::new();
    cache.store(ABC.to_string(), "v".to_string(), at(1), 0);
    let keys = load_api_keys(Some("abc"), at(1));
    assert_eq!(
        refused(compress(true, &keys, &mut cache, &headers(&[]), b"abc", 1)),
        "api key required"
    );
    let known = headers(&[("x-api-key", "abc")]);
    match compress(true, &keys, &mut cache, &known, b"abc", 1) {
        Ok(CompressStart::Cached(events)) => assert_eq!(events[0].data, "v"),
        _ => panic!("the cache was not asked"),
    }
    match compress(true, &keys, &mut cache, &known, b"", 1) {
        Err(AppError::BadRequest(m)) => assert_eq!(m, "payload is empty"),
        _ => panic!("an empty body was taken"),
    }
}

// ------------------------------------------------------------------- routes

fn bare() -> GatewayEnv {
    GatewayEnv {
        port: None,
        worker_url: None,
        chat_completions_url: None,
        models_url: None,
        admin_accounts_url: None,
        admin_token: None,
        require_api_key: None,
    }
}

#[test]
fn settings_have_defaults() {
    let settings = gateway_settings(bare());
    assert_eq!(settings.port, 8080);
    assert_eq!(settings.worker_url, "http://worker.railway.internal:8080/v1/compress");
    assert_eq!(
        settings.chat_completions_url,
        "http://worker.railway.internal:8080/v1/chat/completions"
    );
    assert_eq!(settings.models_url, "http://worker.railway.internal:8080/v1/models");
    assert_eq!(
        settings.admin_accounts_url,
        "http://worker.railway.internal:8080/api/admin/accounts"
    );
    assert_eq!(settings.admin_token, None);
    assert!(!settings.require_api_key);
}

#[test]
fn settings_are_read() {
    let settings = gateway_settings(GatewayEnv {
        port: Some("+90".to_string()),
        worker_url: Some("http://w:1/v1/compress".to_string()),
        models_url: Some("http://m".to_string()),
        admin_token: Some(" change-me ".to_string()),
        require_api_key: Some("true".to_string()),
        ..bare()
    });
    assert_eq!(settings.port, 90);
    assert_eq!(settings.chat_completions_url, "http://w:1/v1/chat/completions");
    assert_eq!(settings.models_url, "http://m");
    assert_eq!(settings.admin_accounts_url, "http://w:1/api/admin/accounts");
    assert_eq!(settings.admin_token, Some(" change-me ".to_string()));
    assert!(settings.require_api_key);
    let blank = gateway_settings(GatewayEnv {
        port: Some("65536".to_string()),
        admin_token: Some(" \n".to_string()),
        require_api_key: Some("True".to_string()),
        ..bare()
    });
    assert_eq!(blank.port, 8080);
    assert_eq!(blank.admin_token, None);
    assert!(!blank.require_api_key);
}

#[test]
fn only_some_words_switch_on() {
    for word in ["1", "true", "TRUE", "yes", "YES"] {
        assert!(switched_on(word));
    }
    for word in ["", "0", "True", "on", " true"] {
        assert!(!switched_on(word));
    }
}

#[test]
fn item_addresses_have_one_slash() {
    assert_eq!(item_url("http://m/v1/models", "x"), "http://m/v1/models/x");
    assert_eq!(item_url("http://m/v1/models//", "x"), "http://m/v1/models/x");
    assert_eq!(account_url("http://m/a/", 12), "http://m/a/12");
}

#[test]
fn content_type_is_passed_on() {
    let map = headers(&[("content-type", "text/event-stream")]);
    assert_eq!(forwarded_content_type(&map), "text/event-stream");
    assert_eq!(forwarded_content_type(&headers(&[("content-type", "")])), "");
    assert_eq!(forwarded_content_type(&headers(&[])), "application/json");
    let mut odd = HeaderMap::new();
    odd.insert("content-type", HeaderValue::from_bytes(&[0xe9]).unwrap());
    assert_eq!(forwarded_content_type(&odd), "application/json");
}

// ---------------------------------------------------------------- dashboard

fn shown(outcome: AccountsFetch) -> String {
    fetch_accounts_json(outcome).to_string()
}

#[test]
fn missing_accounts_have_a_stand_in() {
    assert_eq!(shown(AccountsFetch::Unparsable), "{\"accounts\":[]}");
    assert_eq!(
        shown(AccountsFetch::Refused(502)),
        "{\"accounts\":[],\"error\":\"worker status 502 Bad Gateway\"}"
    );
    assert_eq!(
        shown(AccountsFetch::Failed("gone".to_string())),
        "{\"accounts\":[],\"error\":\"gone\"}"
    );
}

#[test]
fn accounts_are_shown_as_they_came() {
    for text in ["{\"accounts\":[1.5,null]}", "[\"x\"]", "true", "{}"] {
        let value: serde_json::Value = serde_json::from_str(text).unwrap();
        assert_eq!(shown(AccountsFetch::Parsed(value)), text);
    }
}

#[test]
fn account_answers_count_where_the_code_tells_of_success() {
    let value = || Some(serde_json::Value::from(7));
    assert!(matches!(accounts_answer(200, value()), AccountsFetch::Parsed(v) if v == 7));
    assert!(matches!(accounts_answer(299, None), AccountsFetch::Unparsable));
    assert!(matches!(accounts_answer(199, value()), AccountsFetch::Refused(199)));
    assert!(matches!(accounts_answer(300, value()), AccountsFetch::Refused(300)));
    assert!(matches!(accounts_answer(503, None), AccountsFetch::Refused(503)));
    assert!(succeeded(204) && !succeeded(404));
}

#[test]
fn state_event_has_three_fields() {
    let mut cache = ResponseCache::new();
    cache.store("old".to_string(), "v".to_string(), at(4), 0);
    cache.store("k".to_string(), "v".to_string(), at(4), NANOS_PER_SECOND);
    let keys = load_api_keys(Some("abc"), at(5));
    let accounts: serde_json::Value = serde_json::from_str("{\"accounts\":[2.5]}").unwrap();
    let event = state_event(&mut cache, &keys, accounts, CACHE_TTL_NANOS);
    assert_eq!(
        pair(&event),
        (
            Some("state"),
            "{\"accounts\":{\"accounts\":[2.5]},\
             \"api_keys\":[{\"created_at_unix\":5,\"id\":\"ba7816bf8f01cfea\",\
             \"name\":\"Env key 1\",\"prefix\":\"abc...\"}],\
             \"cache\":[{\"created_at_unix\":4,\"expires_in_seconds\":1,\"key\":\"k\"}]}"
        )
    );
    assert_eq!(cache_get(&mut cache, "old", 0), None);
}

#[test]
fn state_shows_cache_and_keys() {
    let mut cache = ResponseCache::new();
    cache.store("k".to_string(), "v".to_string(), at(4), 0);
    cache.store("old".to_string(), "v".to_string(), at(4), 0);
    let keys = load_api_keys(Some("abc"), at(5));
    let expected = "{\"api_keys\":[{\"created_at_unix\":5,\"id\":\"ba7816bf8f01cfea\",\
                    \"name\":\"Env key 1\",\"prefix\":\"abc...\"}],\
                    \"cache\":[{\"created_at_unix\":4,\"expires_in_seconds\":86400,\"key\":\"k\"}]}";
    cache.remove("old");
    let object = current_state(&mut cache, &keys, 0);
    assert_eq!(serde_json::Value::Object(object).to_string(), expected);
    let empty = state_object(&Vec::new(), &Vec::new());
    assert_eq!(serde_json::Value::Object(empty).to_string(), "{\"api_keys\":[],\"cache\":[]}");
}
