use flint::event::{Event, Message, ToolCall, Usage};
use flint::json::Json;
use flint::provider::{
    after_balance, after_models, balance_first, BalanceStep, classify, configured_proxy, ensure_tool_calls_are_answered, first_line, id_for,
    is_local_endpoint, retry_delay_for_test, truncate, Balance, ProviderFailure, StreamParser,
    Thinking,
};
use flint::search::ProviderConfig;
use flint::provider::{
    gave_up, next_step, proxy_url, request_body, retry_notice, stream_end, AttemptEnd, NextStep,
    Provider,
};

fn texts(events: &[Event]) -> String {
    events
        .iter()
        .filter_map(|e| match e {
            Event::Text(t) => Some(t.as_str()),
            _ => None,
        })
        .collect()
}

#[test]
fn the_body_says_what_the_status_cannot() {
    assert_eq!(
        classify(429, r#"{"error":{"code":"insufficient_quota"}}"#),
        ("insufficient_balance", false),
        "an exhausted quota is not a rate limit"
    );
    assert_eq!(
        classify(429, r#"{"error":{"code":"rate_limit_exceeded"}}"#),
        ("rate_limit", true)
    );
    assert_eq!(
        classify(402, r#"{"error":{"message":"Insufficient Balance"}}"#),
        ("insufficient_balance", false)
    );
    assert_eq!(
        classify(400, "Your credit balance is too low to access the API"),
        ("insufficient_balance", false)
    );
    assert_eq!(classify(401, "{}"), ("auth", false));
    assert_eq!(classify(403, "{}"), ("auth", false));
    assert_eq!(classify(503, "{}"), ("server", true));
    assert_eq!(classify(400, "{}"), ("bad_request", false));
    assert_eq!(classify(404, "{}"), ("bad_request", false));
    assert_eq!(classify(418, "{}"), ("bad_request", false));
    assert_eq!(classify(301, "{}"), ("unknown", false));
    assert_eq!(classify(500, "{}"), ("server", true));
}

#[test]
fn parses_plain_text_deltas() {
    let mut p = StreamParser::default();
    let mut all = Vec::new();
    for line in [
        r#"data: {"choices":[{"delta":{"content":"Hel"}}]}"#,
        r#"data: {"choices":[{"delta":{"content":"lo"}}]}"#,
        "data: [DONE]",
    ] {
        all.extend(p.feed_line(line));
    }
    assert_eq!(texts(&all), "Hello");
    assert!(p.done);
}

#[test]
fn ignores_comments_keepalives_and_garbage() {
    let mut p = StreamParser::default();
    for line in [
        ": keep-alive",
        "",
        "event: ping",
        "data: not-json",
        r#"data: {"choices":[]}"#,
    ] {
        assert!(
            p.feed_line(line).is_empty(),
            "line {line:?} should be inert"
        );
    }
    assert!(!p.done);
}

#[test]
fn reassembles_tool_call_arguments_from_fragments() {
    let mut p = StreamParser::default();
    for line in [
        r#"data: {"choices":[{"delta":{"tool_calls":[{"index":0,"id":"call_abc","function":{"name":"bash","arguments":""}}]}}]}"#,
        r#"data: {"choices":[{"delta":{"tool_calls":[{"index":0,"function":{"arguments":"{\"comm"}}]}}]}"#,
        r#"data: {"choices":[{"delta":{"tool_calls":[{"index":0,"function":{"arguments":"and\":\"ls -la\"}"}}]}}]}"#,
        "data: [DONE]",
    ] {
        p.feed_line(line);
    }

    let finished = p.finish();
    let args = finished
        .iter()
        .find_map(|e| match e {
            Event::ToolArgs { args, .. } => Some(args.clone()),
            _ => None,
        })
        .expect("expected assembled tool args");
    assert_eq!(args, r#"{"command":"ls -la"}"#);
    let parsed = Json::parse(&args).unwrap();
    assert_eq!(parsed.str_at("command").map(String::as_str), Some("ls -la"));
}

#[test]
fn tool_start_and_tool_args_share_the_same_id() {
    let mut p = StreamParser::default();
    for line in [
        r#"data: {"choices":[{"delta":{"tool_calls":[{"index":0,"id":"call_abc","function":{"name":"bash","arguments":""}}]}}]}"#,
        r#"data: {"choices":[{"delta":{"tool_calls":[{"index":0,"function":{"arguments":"{\"command\":\"ls\"}"}}]}}]}"#,
    ] {
        p.feed_line(line);
    }

    let mut started_id = None;
    let mut args_id = None;
    let mut name = None;
    for event in p.finish() {
        match event {
            Event::ToolStart { id, name: n } => {
                started_id = Some(id);
                name = Some(n);
            }
            Event::ToolArgs { id, .. } => args_id = Some(id),
            _ => {}
        }
    }

    assert_eq!(
        started_id, args_id,
        "ToolStart and ToolArgs must carry the same id or the call is lost"
    );
    assert_eq!(
        started_id.as_deref(),
        Some("call_abc"),
        "the provider's real id must win"
    );
    assert_eq!(name.as_deref(), Some("bash"));
}

#[test]
fn synthesised_ids_are_consistent_between_start_and_args() {
    let mut p = StreamParser::default();
    p.feed_line(
        r#"data: {"choices":[{"delta":{"tool_calls":[{"index":3,"function":{"name":"list","arguments":"{\"path\":\".\"}"}}]}}]}"#,
    );
    let events = p.finish();
    let ids: Vec<String> = events
        .iter()
        .map(|e| match e {
            Event::ToolStart { id, .. } | Event::ToolArgs { id, .. } => id.clone(),
            other => panic!("unexpected event {other:?}"),
        })
        .collect();
    assert_eq!(ids, vec!["call_3", "call_3"]);
}

#[test]
fn keeps_parallel_tool_calls_separate() {
    let mut p = StreamParser::default();
    let mut all = Vec::new();
    for line in [
        r#"data: {"choices":[{"delta":{"tool_calls":[{"index":0,"id":"a","function":{"name":"read","arguments":"{\"pa"}}]}}]}"#,
        r#"data: {"choices":[{"delta":{"tool_calls":[{"index":1,"id":"b","function":{"name":"list","arguments":"{\"pa"}}]}}]}"#,
        r#"data: {"choices":[{"delta":{"tool_calls":[{"index":0,"function":{"arguments":"th\":\"x\"}"}}]}}]}"#,
        r#"data: {"choices":[{"delta":{"tool_calls":[{"index":1,"function":{"arguments":"th\":\".\"}"}}]}}]}"#,
    ] {
        all.extend(p.feed_line(line));
    }
    let finished = p.finish();
    let mut pairs: Vec<(String, String)> = finished
        .iter()
        .filter_map(|e| match e {
            Event::ToolArgs { id, args } => Some((id.clone(), args.clone())),
            _ => None,
        })
        .collect();
    pairs.sort();
    assert_eq!(
        pairs,
        vec![
            ("a".to_string(), r#"{"path":"x"}"#.to_string()),
            ("b".to_string(), r#"{"path":"."}"#.to_string()),
        ]
    );
}

#[test]
fn reasoning_is_read_under_either_name() {
    for field in ["reasoning_content", "reasoning"] {
        let mut p = StreamParser::default();
        let line = format!(r#"data: {{"choices":[{{"delta":{{"{field}":"thinking..."}}}}]}}"#);
        let events = p.feed_line(&line);
        let seen: Vec<&str> = events
            .iter()
            .filter_map(|e| match e {
                Event::Reasoning(t) => Some(t.as_str()),
                _ => None,
            })
            .collect();
        assert_eq!(seen, vec!["thinking..."], "the {field} field must be read");
    }
}

#[test]
fn extracts_usage_and_reasoning() {
    let mut p = StreamParser::default();
    let mut all = Vec::new();
    all.extend(
        p.feed_line(r#"data: {"choices":[{"delta":{"reasoning_content":"thinking..."}}]}"#),
    );
    all.extend(p.feed_line(
        r#"data: {"choices":[],"usage":{"prompt_tokens":100,"completion_tokens":7}}"#,
    ));

    assert!(matches!(all[0], Event::Reasoning(_)));
    match all[1] {
        Event::Usage(u) => {
            assert_eq!(u.prompt_tokens, 100);
            assert_eq!(u.completion_tokens, 7);
            assert_eq!(u.total(), 107);
        }
        ref other => panic!("expected Usage, got {other:?}"),
    }
}

#[test]
fn reads_both_shapes_of_the_cache_split() {
    let usage_of = |line: &str| {
        let mut p = StreamParser::default();
        p.feed_line(line)
            .into_iter()
            .find_map(|e| match e {
                Event::Usage(u) => Some(u),
                _ => None,
            })
            .expect("the frame carries usage")
    };

    let deepseek = usage_of(
        r#"data: {"choices":[],"usage":{"prompt_tokens":1000,"completion_tokens":7,"prompt_cache_hit_tokens":871,"prompt_cache_miss_tokens":129}}"#,
    );
    assert_eq!(deepseek.cache_hit_tokens, Some(871));
    assert_eq!(deepseek.cache_rate(), Some(87));

    let openai = usage_of(
        r#"data: {"choices":[],"usage":{"prompt_tokens":512,"completion_tokens":3,"prompt_tokens_details":{"cached_tokens":512}}}"#,
    );
    assert_eq!(openai.cache_hit_tokens, Some(512));

    let silent = usage_of(
        r#"data: {"choices":[],"usage":{"prompt_tokens":512,"completion_tokens":3,"prompt_tokens_details":{"audio_tokens":0}}}"#,
    );
    assert_eq!(silent.cache_hit_tokens, None);
    assert_eq!(silent.cache_rate(), None);
}

#[test]
fn records_finish_reason() {
    let mut p = StreamParser::default();
    p.feed_line(r#"data: {"choices":[{"delta":{},"finish_reason":"tool_calls"}]}"#);
    assert_eq!(p.finish_reason.as_deref(), Some("tool_calls"));
}

#[test]
fn synthesises_id_when_provider_omits_one() {
    let mut p = StreamParser::default();
    p.feed_line(
        r#"data: {"choices":[{"delta":{"tool_calls":[{"index":2,"function":{"name":"list","arguments":"{}"}}]}}]}"#,
    );
    let id = p
        .finish()
        .into_iter()
        .find_map(|e| match e {
            Event::ToolArgs { id, .. } => Some(id),
            _ => None,
        })
        .expect("expected ToolArgs");
    assert_eq!(id, "call_2");
}

#[test]
fn empty_arguments_become_empty_object() {
    let mut p = StreamParser::default();
    p.feed_line(
        r#"data: {"choices":[{"delta":{"tool_calls":[{"index":0,"function":{"name":"list"}}]}}]}"#,
    );
    let args = p
        .finish()
        .into_iter()
        .find_map(|e| match e {
            Event::ToolArgs { args, .. } => Some(args),
            _ => None,
        })
        .expect("expected ToolArgs");
    assert_eq!(args, "{}");
}

// ---------------------------------------------------------------------------------------
// Further cases
// ---------------------------------------------------------------------------------------

#[test]
fn a_frame_that_looks_like_json_and_is_not_is_reported() {
    let mut p = StreamParser::default();
    let events = p.feed_line("data: {\"choices\": [");
    assert_eq!(events.len(), 1);
    match &events[0] {
        Event::Warning(w) => {
            assert!(w.starts_with("could not parse a stream frame from the provider: "), "{w}");
            assert!(w.ends_with(". Raw: {\"choices\": ["), "{w}");
        }
        other => panic!("expected a warning, got {other:?}"),
    }
}

#[test]
fn finished_calls_come_out_in_index_order_and_the_parser_is_emptied() {
    let mut p = StreamParser::new();
    p.feed_line(r#"data: {"choices":[{"delta":{"tool_calls":[{"index":5,"function":{"name":"b"}}]}}]}"#);
    p.feed_line(r#"data: {"choices":[{"delta":{"tool_calls":[{"index":1,"function":{"name":"a"}}]}}]}"#);
    p.feed_line(r#"data: {"choices":[{"delta":{"tool_calls":[{"index":7,"function":{"arguments":"{}"}}]}}]}"#);
    let names: Vec<String> = p
        .finish()
        .into_iter()
        .filter_map(|e| match e {
            Event::ToolStart { name, .. } => Some(name),
            _ => None,
        })
        .collect();
    assert_eq!(names, vec!["a", "b"], "a call that never got a name is not started");
    assert!(p.finish().is_empty());
}

#[test]
fn the_first_name_wins_and_arguments_are_appended() {
    let mut p = StreamParser::new();
    p.feed_line(r#"data: {"choices":[{"delta":{"tool_calls":[{"function":{"name":"first","arguments":"{\"a\""}}]}}]}"#);
    p.feed_line(r#"data: {"choices":[{"delta":{"tool_calls":[{"function":{"name":"second","arguments":":1}"}}]}}]}"#);
    let events = p.finish();
    match (&events[0], &events[1]) {
        (Event::ToolStart { id, name }, Event::ToolArgs { args, .. }) => {
            assert_eq!(id, "call_0");
            assert_eq!(name, "first");
            assert_eq!(args, r#"{"a":1}"#);
        }
        other => panic!("unexpected {other:?}"),
    }
}

#[test]
fn thinking_asks_only_when_both_are_set() {
    let t = Thinking { level: " high ".to_string(), field: " reasoning_effort ".to_string() };
    assert_eq!(t.asked(), Some(("reasoning_effort".to_string(), "high".to_string())));
    let off = Thinking { level: "off".to_string(), field: "reasoning_effort".to_string() };
    assert_eq!(off.asked(), None);
    let nowhere = Thinking { level: "low".to_string(), field: "  ".to_string() };
    assert_eq!(nowhere.asked(), None);
    assert!(Thinking::is_a_level("medium"));
    assert!(!Thinking::is_a_level("max"));
    assert!(!Thinking::is_a_level("High"));
}

#[test]
fn only_a_written_proxy_is_a_proxy() {
    let mut p = ProviderConfig {
        name: "p".to_string(),
        base_url: "http://x".to_string(),
        api_key: String::new(),
        api_key_env: None,
        key_in_env: None,
        proxy: Some("  http://proxy:8080 ".to_string()),
        model: "m".to_string(),
        thinking_field: String::new(),
    };
    assert_eq!(configured_proxy(&p), Some("http://proxy:8080".to_string()));
    p.proxy = Some("   ".to_string());
    assert_eq!(configured_proxy(&p), None);
    p.proxy = None;
    assert_eq!(configured_proxy(&p), None);
}

#[test]
fn local_endpoints_are_recognised_in_any_case() {
    assert!(is_local_endpoint("http://LOCALHOST:11434/v1"));
    assert!(is_local_endpoint("http://127.0.0.1:8080"));
    assert!(is_local_endpoint("http://0.0.0.0:1"));
    assert!(is_local_endpoint("http://[::1]:9"));
    assert!(!is_local_endpoint("https://api.deepseek.com"));
}

#[test]
fn the_backoff_ladder_doubles_and_stops_at_sixteen() {
    let ladder: Vec<u64> = (0..8).map(retry_delay_for_test).collect();
    assert_eq!(ladder, vec![1, 1, 2, 4, 8, 16, 16, 16]);
    assert_eq!(retry_delay_for_test(u32::MAX), 16);
}

#[test]
fn a_failure_says_where_and_what() {
    let f = ProviderFailure::from_response("deepseek", 402, "402 Payment Required", "  no money  ");
    assert_eq!(f.code, "insufficient_balance");
    assert!(!f.retryable);
    assert_eq!(f.message, "provider 'deepseek' returned HTTP 402 Payment Required: no money");
    let n = ProviderFailure::network("socket closed".to_string());
    assert_eq!(n.code, "network");
    assert!(n.retryable);
    let long = "x".repeat(900);
    let f = ProviderFailure::from_response("p", 500, "500", &long);
    assert_eq!(f.message.chars().count(), "provider 'p' returned HTTP 500: ".len() + 801);
    assert!(f.message.ends_with('…'));
}

#[test]
fn small_helpers_say_exactly_what_they_say() {
    assert_eq!(id_for(12), "call_12");
    assert_eq!(first_line("one\r\ntwo"), "one");
    assert_eq!(first_line(""), "");
    assert_eq!(truncate("abcdef", 3), "abc…");
    assert_eq!(truncate("abc", 3), "abc");
    let b = Balance::verdict(Some(true), "models");
    assert_eq!(b.usable, Some(true));
    assert_eq!(b.checked, "models");
    assert!(b.total.is_none());
    let u = Usage { prompt_tokens: u64::MAX, completion_tokens: 2, cache_hit_tokens: None };
    assert_eq!(u.total(), u64::MAX);
}

#[test]
fn a_tool_call_with_no_answer_is_answered_as_never_ran() {
    let call = |id: &str, name: &str| ToolCall {
        id: id.to_string(),
        name: name.to_string(),
        arguments: "{}".to_string(),
    };
    let messages = vec![
        Message::User { content: "go".to_string() },
        Message::Assistant {
            content: None,
            reasoning: None,
            tool_calls: vec![call("a", "read"), call("b", "bash")],
        },
        Message::Tool { tool_call_id: "a".to_string(), content: "ok".to_string() },
        Message::User { content: "stop".to_string() },
    ];
    let out = ensure_tool_calls_are_answered(&messages);
    assert_eq!(out.len(), 5);
    match &out[3] {
        Message::Tool { tool_call_id, content } => {
            assert_eq!(tool_call_id, "b");
            assert_eq!(
                content,
                "interrupted by the user: tool 'bash' was requested but never ran."
            );
        }
        other => panic!("expected the synthetic answer, got {other:?}"),
    }
    assert!(matches!(&out[4], Message::User { content } if content == "stop"));

    let answered = ensure_tool_calls_are_answered(&out);
    assert_eq!(answered.len(), 5, "a repaired conversation needs no more repair");
}

#[test]
fn an_account_check_asks_the_balance_first_and_the_models_second() {
    match balance_first("deepseek", "  ") {
        BalanceStep::Failed(f) => {
            assert_eq!(f.code, "no_key");
            assert!(!f.retryable);
            assert_eq!(
                f.message,
                "provider 'deepseek' has no API key. Set `api_key` or `api_key_env` for it."
            );
        }
        _ => panic!("a blank key is refused"),
    }
    assert!(matches!(balance_first("deepseek", "sk-1"), BalanceStep::AskBalance));

    let body = r#"{"is_available":true,"balance_infos":[
        {"currency":"CNY","total_balance":"110.00","granted_balance":"10.00","topped_up_balance":"100.00"},
        {"currency":"USD","total_balance":"1.00","granted_balance":"0.00","topped_up_balance":"1.00"}]}"#;
    match after_balance("deepseek", 200, "OK", body) {
        BalanceStep::Found(b) => {
            assert_eq!(b.usable, Some(true));
            assert_eq!(b.checked, "balance");
            assert_eq!(b.currency.as_deref(), Some("CNY"));
            assert_eq!(b.total.as_deref(), Some("110.00"));
            assert_eq!(b.granted.as_deref(), Some("10.00"));
            assert_eq!(b.topped_up.as_deref(), Some("100.00"));
        }
        _ => panic!("a balance answer is read"),
    }
    match after_balance("deepseek", 200, "OK", r#"{"balance":3}"#) {
        BalanceStep::Found(b) => {
            assert_eq!(b.usable, None);
            assert_eq!(b.checked, "none");
        }
        _ => panic!("an answer without a verdict is no verdict"),
    }
    match after_balance("deepseek", 402, "Payment Required", "") {
        BalanceStep::Failed(f) => assert_eq!(f.code, "insufficient_balance"),
        _ => panic!("402 is a failure"),
    }
    assert!(matches!(after_balance("local", 404, "Not Found", ""), BalanceStep::AskModels));
    match after_models("local", 200, "OK") {
        BalanceStep::Found(b) => {
            assert_eq!(b.usable, Some(true));
            assert_eq!(b.checked, "models");
        }
        _ => panic!("/models answered"),
    }
    match after_models("local", 405, "Method Not Allowed") {
        BalanceStep::Found(b) => assert_eq!(b.usable, None),
        _ => panic!("405 is no verdict"),
    }
    assert!(matches!(after_models("local", 401, "Unauthorized"), BalanceStep::Failed(_)));
}

#[test]
fn a_provider_starts_at_off_and_keeps_its_field() {
    let config = ProviderConfig {
        name: "deepseek".to_string(),
        base_url: "https://api.deepseek.com".to_string(),
        api_key: "sk".to_string(),
        api_key_env: None,
        key_in_env: None,
        proxy: None,
        model: "deepseek-reasoner".to_string(),
        thinking_field: " reasoning_effort ".to_string(),
    };
    let mut p = Provider::new(config);
    assert_eq!(p.name(), "deepseek");
    assert_eq!(p.model(), "deepseek-reasoner");
    assert_eq!(p.thinking(), "off");
    assert_eq!(p.thinking_field(), "reasoning_effort");
    assert!(!p.json_mode);
    p.expect_json(true);
    assert!(p.json_mode);
    p.set_thinking("  high ");
    assert_eq!(p.thinking(), "high");
    assert_eq!(p.thinking_spec().field, " reasoning_effort ");
    let fallback = Provider::fallback_config();
    assert_eq!(fallback.name, "unavailable");
    assert_eq!(fallback.base_url, "http://127.0.0.1:1");
    assert!(fallback.api_key.is_empty() && fallback.model.is_empty());
    assert_eq!(proxy_url("127.0.0.1:10808"), "http://127.0.0.1:10808");
    assert_eq!(proxy_url("socks5h://127.0.0.1:10808"), "socks5h://127.0.0.1:10808");
}

fn text_of(j: Option<&Json>) -> Option<&str> {
    match j {
        Some(Json::Str(s)) => Some(s.as_str()),
        _ => None,
    }
}

fn keys(j: &Json) -> Vec<&str> {
    match j {
        Json::Object(m) => m.iter().map(|(k, _)| k.as_str()).collect(),
        _ => panic!("not an object: {j:?}"),
    }
}

/// The exact wire shape the API requires for an assistant turn that calls a tool.
#[test]
fn assistant_tool_calls_use_the_openai_wire_shape() {
    let msg = Message::Assistant {
        content: None,
        reasoning: None,
        tool_calls: vec![ToolCall {
            id: "call_1".to_string(),
            name: "bash".to_string(),
            arguments: r#"{"command":"ls"}"#.to_string(),
        }],
    };
    let v = msg.wire();
    let tc = match v.get("tool_calls") {
        Some(Json::Array(l)) => &l[0],
        other => panic!("must serialise tool_calls, got {other:?}"),
    };
    assert_eq!(text_of(tc.get("id")), Some("call_1"));
    assert_eq!(text_of(tc.get("type")), Some("function"), "the `type` discriminator is required, got {tc:?}");
    let function = tc.get("function").unwrap();
    assert_eq!(text_of(function.get("name")), Some("bash"));
    assert_eq!(text_of(function.get("arguments")), Some(r#"{"command":"ls"}"#));
    assert!(tc.get("name").is_none(), "name must not be emitted at the top level, got {tc:?}");

    // A tool result must carry the id it answers.
    let tool_msg = Message::Tool { tool_call_id: "call_1".to_string(), content: "ok".to_string() };
    let tv = tool_msg.wire();
    assert_eq!(text_of(tv.get("role")), Some("tool"));
    assert_eq!(text_of(tv.get("tool_call_id")), Some("call_1"));
}

#[test]
fn the_request_body_streams_the_answered_conversation() {
    let messages = vec![
        Message::User { content: "hi".to_string() },
        Message::Assistant {
            content: Some("let me look".to_string()),
            reasoning: Some("thinking".to_string()),
            tool_calls: vec![ToolCall {
                id: "c1".to_string(),
                name: "bash".to_string(),
                arguments: "{}".to_string(),
            }],
        },
    ];
    let off = Thinking { level: "off".to_string(), field: "reasoning_effort".to_string() };
    let body = request_body("deepseek-chat", &messages, &[], false, &off);
    assert_eq!(keys(&body), vec!["model", "messages", "stream", "stream_options"]);
    assert_eq!(text_of(body.get("model")), Some("deepseek-chat"));
    assert!(matches!(body.get("stream"), Some(Json::Bool(true))));
    assert!(matches!(body.get("stream_options").unwrap().get("include_usage"), Some(Json::Bool(true))));
    let sent = match body.get("messages") {
        Some(Json::Array(l)) => l,
        other => panic!("messages must be an array, got {other:?}"),
    };
    // The call that never ran is answered before the request goes out.
    assert_eq!(sent.len(), 3);
    assert_eq!(text_of(sent[0].get("role")), Some("user"));
    assert_eq!(keys(&sent[1]), vec!["role", "content", "tool_calls"]);
    assert_eq!(text_of(sent[2].get("role")), Some("tool"));
    assert_eq!(text_of(sent[2].get("tool_call_id")), Some("c1"));
    assert_eq!(
        text_of(sent[2].get("content")),
        Some("interrupted by the user: tool 'bash' was requested but never ran.")
    );
}

#[test]
fn the_request_body_adds_tools_json_mode_and_a_reasoning_level_only_when_asked() {
    let tools = vec![(
        "bash".to_string(),
        "run a command".to_string(),
        Json::parse(r#"{"type":"object"}"#).unwrap(),
    )];
    let high = Thinking { level: " high ".to_string(), field: " reasoning_effort ".to_string() };
    let body = request_body("m", &[], &tools, true, &high);
    assert_eq!(
        keys(&body),
        vec!["model", "messages", "stream", "stream_options", "tools", "response_format", "reasoning_effort"]
    );
    assert_eq!(text_of(body.get("reasoning_effort")), Some("high"));
    assert_eq!(text_of(body.get("response_format").unwrap().get("type")), Some("json_object"));
    let tool = match body.get("tools") {
        Some(Json::Array(l)) => &l[0],
        other => panic!("tools must be an array, got {other:?}"),
    };
    assert_eq!(text_of(tool.get("type")), Some("function"));
    let f = tool.get("function").unwrap();
    assert_eq!(text_of(f.get("name")), Some("bash"));
    assert_eq!(text_of(f.get("description")), Some("run a command"));
    assert_eq!(text_of(f.get("parameters").unwrap().get("type")), Some("object"));
    // No field named: no level is sent, whatever the level.
    let nowhere = Thinking { level: "low".to_string(), field: "  ".to_string() };
    let body = request_body("m", &[], &[], false, &nowhere);
    assert_eq!(keys(&body), vec!["model", "messages", "stream", "stream_options"]);
}

#[test]
fn a_parsed_frame_gives_its_usage_then_its_text() {
    let mut p = StreamParser::new();
    let chunk = Json::parse(
        r#"{"usage":{"prompt_tokens":7,"completion_tokens":2},"choices":[{"delta":{"content":"hi"}}]}"#,
    )
    .unwrap();
    let events = p.read_chunk(&chunk);
    assert_eq!(events.len(), 2);
    assert!(matches!(&events[0], Event::Usage(u) if u.prompt_tokens == 7 && u.completion_tokens == 2));
    assert!(matches!(&events[1], Event::Text(t) if t == "hi"));
    let nothing = Json::parse(r#"{"usage":null}"#).unwrap();
    assert!(p.read_chunk(&nothing).is_empty());
}

#[test]
fn a_failure_is_retried_only_while_nothing_was_drawn_and_attempts_remain() {
    let failed = AttemptEnd::Failed { retryable: true };
    assert_eq!(next_step(1, AttemptEnd::Finished, true), NextStep::Succeed);
    assert_eq!(next_step(1, failed, false), NextStep::Retry { attempt: 2, wait_secs: 1 });
    assert_eq!(next_step(3, failed, false), NextStep::Retry { attempt: 4, wait_secs: 4 });
    assert_eq!(next_step(4, failed, false), NextStep::GiveUp { attempts: 4 });
    assert_eq!(next_step(2, failed, true), NextStep::StopDrawn);
    assert_eq!(next_step(1, AttemptEnd::Failed { retryable: false }, false), NextStep::GiveUp { attempts: 1 });
}

#[test]
fn what_is_said_around_a_retry() {
    assert_eq!(gave_up(1), None);
    assert_eq!(
        gave_up(4).as_deref(),
        Some("gave up after 4 attempts -- the network or the provider stayed unreachable")
    );
    assert_eq!(
        retry_notice("server error\ndetails", 2, 3),
        "server error -- retrying in 2s (attempt 3/4)"
    );
    assert!(stream_end(true, "https://x/v1").is_none());
    let f = stream_end(false, "https://x/v1").unwrap();
    assert_eq!(f.code, "network");
    assert!(f.retryable);
    assert_eq!(
        f.message,
        "the response from https://x/v1 ended before it was finished -- no completion signal arrived, so what came back is only part of an answer"
    );
}

#[test]
fn a_provider_in_json_mode_asks_for_a_json_object() {
    let mut p = Provider::new(Provider::fallback_config());
    p.expect_json(true);
    let body = p.body(&[Message::User { content: "hi".to_string() }], &[]);
    assert_eq!(text_of(body.get("model")), Some(p.model()));
    assert_eq!(text_of(body.get("response_format").unwrap().get("type")), Some("json_object"));
}

#[test]
fn finished_calls_come_out_in_index_order_whatever_order_they_arrived_in() {
    let mut p = StreamParser::new();
    p.feed_line(r#"data: {"choices":[{"delta":{"tool_calls":[{"index":2,"id":"b","function":{"name":"read","arguments":"{}"}}]}}]}"#);
    p.feed_line(r#"data: {"choices":[{"delta":{"tool_calls":[{"index":0,"function":{"name":"bash","arguments":""}}]}}]}"#);
    p.feed_line(r#"data: {"choices":[{"delta":{"tool_calls":[{"index":2,"function":{"arguments":" "}}]}}]}"#);
    let events = p.finish();
    let starts: Vec<(String, String)> = events
        .iter()
        .filter_map(|e| match e {
            Event::ToolStart { id, name } => Some((id.clone(), name.clone())),
            _ => None,
        })
        .collect();
    assert_eq!(
        starts,
        vec![("call_0".to_string(), "bash".to_string()), ("b".to_string(), "read".to_string())]
    );
    assert!(p.finish().is_empty());
}
