//! The worker: accounts, requests, streams and settings.

use one_slot::error::{WorkerError, WorkerStep};
use one_slot::gateway::chunking::split_semantic;
use one_slot::sse::SseEvent;
use one_slot::worker::accounts::{
    account_label, accounts_to_add, add_accounts_report, load_accounts, parse_account_line,
    parse_account_lines, AccountConfig, AddAttempt,
};
use one_slot::worker::requests::{
    accept_chat, accept_compression, build_compression_request, chat_failed, compression_failed,
    model_not_found, next_request_id, payload_text, RequestCounter, MAX_CHUNK_BYTES,
};
use one_slot::worker::settings::{
    compression_model, compression_prompt, config_from_env, env_optional, env_string, env_u16,
    env_usize, Upstream, WorkerEnv,
};
use one_slot::worker::status::{
    account_at, admin_accounts, count_state, health, removal_failed, sorted_accounts, AccountStatus,
};
use one_slot::worker::streams::{
    stream_openai_chunks, stream_text_deltas, ChatEvent, DeltaEvent,
};

fn fields(account: &AccountConfig) -> (&str, &str, &str, &str) {
    (&account.email, &account.mobile, &account.area_code, &account.password)
}

fn status(email: &str, mobile: &str, state: &str) -> AccountStatus {
    AccountStatus {
        email: email.to_string(),
        mobile: mobile.to_string(),
        state: state.to_string(),
        active_count: 1,
        max_concurrent: 3,
        last_released_ms: -5,
        error_count: 2,
    }
}

// ------------------------------------------------------------------- errors

#[test]
fn worker_errors_are_answered_with_their_status_and_message() {
    let cases = [
        (WorkerError::BadRequest("b".to_string()), 400, "{\"error\":\"b\"}"),
        (WorkerError::Busy, 503, "{\"error\":\"all accounts are busy\"}"),
        (WorkerError::Conflict("c".to_string()), 409, "{\"error\":\"c\"}"),
        (WorkerError::Internal("i".to_string()), 500, "{\"error\":\"i\"}"),
    ];
    for (error, status, body) in cases {
        let reply = error.into_response();
        assert_eq!((reply.status, reply.body.as_str()), (status, body));
        assert!((400..600).contains(&reply.status));
    }
}

#[test]
fn failed_worker_steps_say_what_failed() {
    let cases = [
        (WorkerStep::InitAdapter, "init DeepSeek adapter failed: x"),
        (WorkerStep::Serve, "server failed: x"),
        (WorkerStep::BuildRequest, "build compression request failed: x"),
        (WorkerStep::WriteResponse, "serialize response failed: x"),
    ];
    for (step, message) in cases {
        match step.failed("x") {
            WorkerError::Internal(m) => assert_eq!(m, message),
            other => panic!("{other:?}"),
        }
    }
}

// ----------------------------------------------------------------- accounts

#[test]
fn login_and_password_make_an_account() {
    let account = parse_account_line("email@host | pass word ").unwrap();
    assert_eq!(fields(&account), ("email@host", "", "", "pass word"));
    assert_eq!(account_label(&account), "email@host");
    let account = parse_account_line("12345:secret").unwrap();
    assert_eq!(fields(&account), ("", "12345", "", "secret"));
    assert_eq!(account_label(&account), "12345");
}

#[test]
fn password_may_hold_the_separator() {
    let account = parse_account_line("a@b|p|q||r").unwrap();
    assert_eq!(fields(&account), ("a@b", "", "", "p|q||r"));
    let account = parse_account_line("a@b|p | q").unwrap();
    assert_eq!(account.password, "p|q");
}

#[test]
fn separators_have_an_order() {
    assert_eq!(fields(&parse_account_line("a,b;c:d|e").unwrap()), ("", "a,b;c:d", "", "e"));
    assert_eq!(fields(&parse_account_line("a,b;c:d").unwrap()), ("", "a,b;c", "", "d"));
    assert_eq!(fields(&parse_account_line("a,b;c").unwrap()), ("", "a,b", "", "c"));
    assert_eq!(fields(&parse_account_line("a,b\tc").unwrap()), ("", "a,b", "", "c"));
    assert_eq!(fields(&parse_account_line("a,b").unwrap()), ("", "a", "", "b"));
    assert!(parse_account_line("a b").is_none());
    assert!(parse_account_line("").is_none());
}

#[test]
fn area_code_makes_a_mobile_account() {
    let account = parse_account_line("+86|138|p|q").unwrap();
    assert_eq!(fields(&account), ("", "138", "+86", "p|q"));
    let account = parse_account_line("+86138|p").unwrap();
    assert_eq!(fields(&account), ("", "+86138", "", "p"));
}

#[test]
fn lists_pass_over_blank_lines_and_comments() {
    let accounts =
        parse_account_lines("# a@b|c\n\n  a@b|c \r\n nothing here\n  #x|y\n1,2");
    let got: Vec<_> = accounts.iter().map(fields).collect();
    assert_eq!(got, vec![("a@b", "", "", "c"), ("", "1", "", "2")]);
    assert_eq!(load_accounts(Some("a@b|c")).len(), 1);
    assert_eq!(load_accounts(None).len(), 0);
}

#[test]
fn comments_are_ignored() {
    assert_eq!(parse_account_lines("#a|b").len(), 0);
}

#[test]
fn lists_one_after_the_other_hold_both() {
    let (a, b) = ("x|1\r", "# no\ny|2\nz|3");
    let both = parse_account_lines(&format!("{a}\n{b}"));
    let apart: Vec<AccountConfig> =
        parse_account_lines(a).into_iter().chain(parse_account_lines(b)).collect();
    let got: Vec<_> = both.iter().map(fields).collect();
    let expected: Vec<_> = apart.iter().map(fields).collect();
    assert_eq!(got, expected);
    assert_eq!(got.len(), 3);
}

#[test]
fn imports_need_an_account() {
    match accounts_to_add("# none\n") {
        Err(WorkerError::BadRequest(m)) => assert_eq!(m, "no usable accounts in request"),
        _ => panic!("an empty list was taken"),
    }
    match accounts_to_add("a|b\nc|d") {
        Ok(accounts) => assert_eq!(accounts.len(), 2),
        Err(e) => panic!("{e:?}"),
    }
}

#[test]
fn imports_are_reported() {
    let attempt = |label: &str, failure: Option<&str>| AddAttempt {
        label: label.to_string(),
        failure: failure.map(str::to_string),
    };
    let report = add_accounts_report(
        &vec![attempt("a", None), attempt("b", Some("bad login")), attempt("c", None)],
        7,
    );
    assert_eq!(report.added, 2);
    assert_eq!(report.total, 7);
    assert_eq!(report.errors, vec!["b: bad login"]);
}

// ------------------------------------------------------------------- status

#[test]
fn accounts_are_listed_by_label() {
    let infos = sorted_accounts(vec![
        status("", "2", "busy"),
        status("b@x", "9", "idle"),
        status("", "1", "idle"),
        status("b@x", "8", "error"),
    ]);
    let got: Vec<(usize, &str, &str)> =
        infos.iter().map(|i| (i.index, i.label.as_str(), i.mobile.as_str())).collect();
    assert_eq!(got, vec![(0, "1", "1"), (1, "2", "2"), (2, "b@x", "9"), (3, "b@x", "8")]);
    assert!(infos.iter().all(|i| i.busy_for_seconds.is_none() && i.max_concurrent == 3));
}

#[test]
fn listed_account_is_found_at_its_place() {
    let infos = sorted_accounts(vec![status("b@x", "1", "idle"), status("", "0", "idle")]);
    for info in &infos {
        match account_at(&infos, info.index) {
            Ok(id) => assert_eq!(id, info.label),
            Err(e) => panic!("{e:?}"),
        }
    }
    match account_at(&infos, 2) {
        Err(WorkerError::BadRequest(m)) => assert_eq!(m, "account index not found"),
        _ => panic!("there is no such account"),
    }
}

#[test]
fn health_counts_states_apart() {
    let infos = sorted_accounts(vec![
        status("a", "", "idle"),
        status("b", "", "invalid"),
        status("c", "", "idle"),
        status("d", "", "other"),
        status("e", "", "busy"),
        status("f", "", "error"),
    ]);
    assert_eq!(count_state(&infos, "idle"), 2);
    assert_eq!(
        health(&infos),
        "{\"accounts\":6,\"busy\":1,\"error\":1,\"idle\":2,\"invalid\":1,\"ok\":true}"
    );
}

#[test]
fn accounts_are_told_as_json() {
    let infos = sorted_accounts(vec![status("a@b", "", "idle")]);
    assert_eq!(
        admin_accounts(&infos),
        "{\"accounts\":[{\"active_count\":1,\"busy_for_seconds\":null,\"email\":\"a@b\",\
         \"error_count\":2,\"index\":0,\"label\":\"a@b\",\"last_released_ms\":-5,\
         \"max_concurrent\":3,\"mobile\":\"\",\"state\":\"idle\"}]}"
    );
    assert_eq!(admin_accounts(&Vec::new()), "{\"accounts\":[]}");
}

// ----------------------------------------------------------------- requests

#[test]
fn request_ids_differ() {
    let mut counter = RequestCounter::new();
    assert_eq!(next_request_id(&mut counter), "worker-1");
    assert_eq!(next_request_id(&mut counter), "worker-2");
}

#[test]
fn payloads_are_text_or_refused() {
    match payload_text(b"") {
        Err(WorkerError::BadRequest(m)) => assert_eq!(m, "payload is empty"),
        _ => panic!("an empty body was taken"),
    }
    match payload_text(&[0xc3]) {
        Err(WorkerError::BadRequest(m)) => assert_eq!(m, "payload must be valid UTF-8 text"),
        _ => panic!("bytes were taken"),
    }
    match payload_text("gr\u{fc}n".as_bytes()) {
        Ok(text) => assert_eq!(text, "gr\u{fc}n"),
        Err(e) => panic!("{e:?}"),
    }
}

#[test]
fn worker_takes_every_chunk() {
    let body = "\u{1F600}".repeat(50_000);
    let chunks = split_semantic(body.as_bytes()).unwrap();
    assert_eq!(chunks.len(), 2);
    for chunk in &chunks {
        assert!(payload_text(chunk).is_ok());
        assert!(chunk.len() <= MAX_CHUNK_BYTES);
    }
    assert_eq!(MAX_CHUNK_BYTES, 256 * 1024);
}

#[test]
fn compression_request_is_a_streamed_conversation() {
    assert_eq!(
        build_compression_request("m", "P", "T\"x").to_string(),
        "{\"messages\":[{\"content\":\"P\",\"role\":\"system\"},\
         {\"content\":\"T\\\"x\",\"role\":\"user\"}],\"model\":\"m\",\"stream\":true,\
         \"stream_options\":{\"include_usage\":true}}"
    );
}

#[test]
fn missing_accounts_make_the_worker_busy() {
    assert!(matches!(
        compression_failed("pool: no available account now".to_string()),
        WorkerError::Busy
    ));
    match compression_failed("timeout".to_string()) {
        WorkerError::Internal(m) => assert_eq!(m, "timeout"),
        other => panic!("{other:?}"),
    }
}

#[test]
fn failed_chats_and_removals_keep_their_words() {
    match chat_failed("timeout".to_string()) {
        WorkerError::Internal(m) => assert_eq!(m, "timeout"),
        other => panic!("{other:?}"),
    }
    match removal_failed("in use".to_string()) {
        WorkerError::Conflict(m) => assert_eq!(m, "in use"),
        other => panic!("{other:?}"),
    }
}

#[test]
fn worker_listens_at_the_local_host() {
    let defaults = Upstream {
        api_base: String::new(),
        wasm_url: String::new(),
        user_agent: String::new(),
        max_concurrent_per_account: 1,
    };
    let port = env_u16(Some("18081"), 8080);
    let config = config_from_env(port, &bare(), &defaults);
    assert_eq!((config.host.as_str(), config.port), ("127.0.0.1", 18081));
}

#[test]
fn answers_have_to_be_what_was_asked_for() {
    assert!(accept_compression(true).is_ok());
    match accept_compression(false) {
        Err(WorkerError::Internal(m)) => {
            assert_eq!(m, "compression request did not return a stream")
        }
        _ => panic!("it was taken"),
    }
    assert!(accept_chat(true, true).is_ok());
    assert!(accept_chat(true, false).is_ok());
    assert!(accept_chat(false, false).is_ok());
    match accept_chat(false, true) {
        Err(WorkerError::Internal(m)) => assert_eq!(m, "stream request returned JSON response"),
        _ => panic!("it was taken"),
    }
}

#[test]
fn unknown_models_are_not_found() {
    let reply = model_not_found("m1");
    assert_eq!(reply.status, 404);
    assert_eq!(reply.body, "{\"error\":\"model not found: m1\"}");
}

// ------------------------------------------------------------------ streams

fn pairs(events: &[SseEvent]) -> Vec<(Option<&str>, &str)> {
    events.iter().map(|e| (e.name.as_deref(), e.data.as_str())).collect()
}

#[test]
fn chat_chunks_are_passed_on() {
    let step = stream_openai_chunks(ChatEvent::Chunk("{\"a\":1}".to_string()));
    assert_eq!((pairs(&step.events), step.ends), (vec![(None, "{\"a\":1}")], false));
    let step = stream_openai_chunks(ChatEvent::Unwritable);
    assert_eq!(
        (pairs(&step.events), step.ends),
        (vec![(None, "{\"error\":\"serialize stream chunk failed\"}")], true)
    );
    let step = stream_openai_chunks(ChatEvent::Failed("x".to_string()));
    assert_eq!((pairs(&step.events), step.ends), (vec![(None, "{\"error\":\"x\"}")], true));
    let step = stream_openai_chunks(ChatEvent::Ended);
    assert_eq!((pairs(&step.events), step.ends), (vec![(None, "[DONE]")], true));
}

#[test]
fn additions_are_passed_on_without_loss() {
    let choices = vec![Some("a".to_string()), None, Some(String::new()), Some("b\n".to_string())];
    let step = stream_text_deltas(DeltaEvent::Choices(choices));
    assert_eq!(
        (pairs(&step.events), step.ends),
        (vec![(Some("delta"), "a"), (Some("delta"), "b\n")], false)
    );
    let step = stream_text_deltas(DeltaEvent::Failed("x".to_string()));
    assert_eq!((pairs(&step.events), step.ends), (vec![(Some("error"), "x")], true));
    let step = stream_text_deltas(DeltaEvent::Ended);
    assert_eq!((pairs(&step.events), step.ends), (vec![(Some("done"), "[DONE]")], true));
}

// ----------------------------------------------------------------- settings

#[test]
fn settings_are_trimmed_and_have_defaults() {
    assert_eq!(env_string(Some(" a "), "d"), "a");
    assert_eq!(env_string(Some("  "), "d"), "d");
    assert_eq!(env_string(None, "d"), "d");
    assert_eq!(env_optional(Some(" a ")), Some("a".to_string()));
    assert_eq!(env_optional(Some("")), None);
    assert_eq!(env_optional(None), None);
    assert_eq!(env_u16(Some("18081"), 1), 18081);
    assert_eq!(env_u16(Some(" 1"), 9), 9);
    assert_eq!(env_u16(Some("70000"), 9), 9);
    assert_eq!(env_usize(Some("70000"), 9), 70000);
    assert_eq!(env_usize(Some("-1"), 9), 9);
    assert_eq!(env_usize(None, 9), 9);
}

fn bare() -> WorkerEnv {
    WorkerEnv {
        accounts: None,
        upstream_base_url: None,
        wasm_url: None,
        user_agent: None,
        max_concurrent_per_account: None,
        proxy_url: None,
        compression_model: None,
        compression_prompt: None,
    }
}

#[test]
fn worker_is_set_up_from_the_environment() {
    let defaults = Upstream {
        api_base: "base".to_string(),
        wasm_url: "wasm".to_string(),
        user_agent: "agent".to_string(),
        max_concurrent_per_account: 2,
    };
    let config = config_from_env(1, &bare(), &defaults);
    assert_eq!(config.accounts.len(), 0);
    assert_eq!(config.upstream.api_base, "base");
    assert_eq!(config.upstream.wasm_url, "wasm");
    assert_eq!(config.upstream.user_agent, "agent");
    assert_eq!(config.upstream.max_concurrent_per_account, 2);
    assert_eq!((config.host.as_str(), config.port), ("127.0.0.1", 1));
    assert_eq!(config.proxy_url, None);
    let env = WorkerEnv {
        accounts: Some("email@x|password".to_string()),
        upstream_base_url: Some(" https://chat.deepseek.com/api/v0".to_string()),
        max_concurrent_per_account: Some("1".to_string()),
        proxy_url: Some(" http://p ".to_string()),
        ..bare()
    };
    let config = config_from_env(2, &env, &defaults);
    assert_eq!(fields(&config.accounts[0]), ("email@x", "", "", "password"));
    assert_eq!(config.upstream.api_base, "https://chat.deepseek.com/api/v0");
    assert_eq!(config.upstream.max_concurrent_per_account, 1);
    assert_eq!(config.proxy_url, Some("http://p".to_string()));
}

#[test]
fn model_and_prompt_have_defaults() {
    assert_eq!(compression_model(&bare()), "deepseek-default");
    let prompt = compression_prompt(&bare());
    assert!(prompt.starts_with("You are a lossless context compressor. "));
    assert!(prompt.ends_with(" Return compressed text only."));
    let env = WorkerEnv {
        compression_model: Some(" m ".to_string()),
        compression_prompt: Some("p".to_string()),
        ..bare()
    };
    assert_eq!(compression_model(&env), "m");
    assert_eq!(compression_prompt(&env), "p");
}
