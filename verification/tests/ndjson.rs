use flint::event::{Event, Usage};
use flint::ndjson::{
    command, error, error_coded, heartbeat, report, session_started, status, turn_completed,
    turn_started, turn_started_with, warning, Attachment, Limit, Outcome, Sink,
};
use serde_json::Value;

#[test]
fn a_text_event_is_one_line_however_the_text_is_shaped() {
    let mut sink = Sink::new();
    let text = "first\nsecond\r\nthird\ttab \"quoted\" back\\slash \u{1b}[31mred\u{1b}[0m";
    let line = sink.line(&Event::Text(text.to_string())).expect("a line");

    assert_eq!(line.matches('\n').count(), 0, "the line contains a newline");
    assert_eq!(line.matches('\r').count(), 0, "the line contains a return");

    let parsed: Value = serde_json::from_str(&line).expect("a line must be JSON");
    assert_eq!(parsed["type"], "message.delta");
    assert_eq!(
        parsed["text"], text,
        "the text did not survive the round trip"
    );
}

#[test]
fn a_tool_result_names_its_tool() {
    let mut sink = Sink::new();
    sink.line(&Event::ToolStart {
        id: "call_1".to_string(),
        name: "read".to_string(),
    });
    let line = sink
        .line(&Event::ToolResult {
            id: "call_1".to_string(),
            output: "14 lines".to_string(),
            ok: true,
        })
        .expect("a line");
    let parsed: Value = serde_json::from_str(&line).unwrap();
    assert_eq!(parsed["type"], "tool.completed");
    assert_eq!(parsed["name"], "read");
    assert_eq!(parsed["ok"], true);
    assert_eq!(parsed["output"], "14 lines");
}

#[test]
fn the_finished_answer_is_one_line_of_the_whole_text() {
    let mut sink = Sink::new();
    for fragment in ["Hello", ", ", "world"] {
        sink.line(&Event::Text(fragment.to_string()));
    }
    let done: Value = serde_json::from_str(&sink.line(&Event::Done).unwrap()).unwrap();
    assert_eq!(done["type"], "message.completed");
    assert_eq!(done["text"], "Hello, world");

    let again: Value = serde_json::from_str(&sink.line(&Event::Done).unwrap()).unwrap();
    assert_eq!(again["text"], "");
}

#[test]
fn every_line_is_an_object_that_says_what_it_is() {
    let mut sink = Sink::new();
    let events = vec![
        Event::Text("hi".to_string()),
        Event::Reasoning("thinking".to_string()),
        Event::ToolStart {
            id: "c1".to_string(),
            name: "bash".to_string(),
        },
        Event::ToolArgs {
            id: "c1".to_string(),
            args: "{\"command\":\"ls\"}".to_string(),
        },
        Event::ToolResult {
            id: "c1".to_string(),
            output: "a.txt".to_string(),
            ok: false,
        },
        Event::Usage(Usage {
            prompt_tokens: 10,
            completion_tokens: 4,
            cache_hit_tokens: None,
        }),
        Event::Warning("careful".to_string()),
        Event::Done,
    ];
    let mut kinds = Vec::new();
    for event in &events {
        let line = sink.line(event).expect("every event has a line");
        let parsed: Value = serde_json::from_str(&line).expect("a line must be JSON");
        let kind = parsed["type"]
            .as_str()
            .expect("every line has a type")
            .to_string();
        kinds.push(kind);
    }
    assert_eq!(
        kinds,
        vec![
            "message.delta",
            "reasoning.delta",
            "tool.started",
            "tool.args",
            "tool.completed",
            "usage",
            "warning",
            "message.completed",
        ]
    );
}

#[test]
fn deltas_are_passed_through_rather_than_held_back() {
    let mut sink = Sink::new();
    let first: Value = serde_json::from_str(
        &sink
            .line(&Event::Text("half".to_string()))
            .expect("a line"),
    )
    .unwrap();
    assert_eq!(first["text"], "half");
}

#[test]
fn the_same_event_writes_the_same_line_twice() {
    let event = Event::ToolResult {
        id: "call_9".to_string(),
        output: "one\ntwo".to_string(),
        ok: true,
    };
    let first = Sink::new().line(&event).expect("a line");
    let second = Sink::new().line(&event).expect("a line");
    assert_eq!(first, second);
    assert_eq!(
        first,
        r#"{"id":"call_9","name":null,"ok":true,"output":"one\ntwo","type":"tool.completed"}"#
    );
}

#[test]
fn the_frame_lines_say_where_and_what() {
    let started: Value = serde_json::from_str(&session_started(
        Some("C:\\flint\\sessions\\x.jsonl"),
        "C:\\work",
        "deepseek-chat",
    ))
    .unwrap();
    assert_eq!(started["type"], "session.started");
    assert_eq!(started["session"], "C:\\flint\\sessions\\x.jsonl");
    assert_eq!(started["cwd"], "C:\\work");
    assert_eq!(started["model"], "deepseek-chat");

    let none: Value = serde_json::from_str(&session_started(None, ".", "m")).unwrap();
    assert!(none["session"].is_null());

    let usage: Value = serde_json::from_str(&turn_completed(
        Some(Usage {
            prompt_tokens: 7,
            completion_tokens: 3,
            cache_hit_tokens: None,
        }),
        Outcome::Complete,
        None,
        1234,
        0,
    ))
    .unwrap();
    assert_eq!(usage["type"], "turn.completed");
    assert_eq!(usage["prompt_tokens"], 7);
    assert_eq!(usage["duration_ms"], 1234);
    assert_eq!(usage["provider_retries"], 0);
    assert_eq!(usage["outcome"], "complete");
    assert_eq!(Outcome::Incomplete.as_str(), "incomplete");
    assert_eq!(Outcome::Stopped.as_str(), "stopped");
    assert!(usage.get("reason").is_none(), "{usage}");
    let step_limited: Value = serde_json::from_str(&turn_completed(
        None,
        Outcome::Incomplete,
        Some(Limit::Steps),
        9,
        2,
    ))
    .unwrap();
    assert_eq!(step_limited["reason"], "steps");
    assert_eq!(
        step_limited["provider_retries"], 2,
        "an unfinished turn's retries are worth as much as a finished one's"
    );
    let timed_out: Value = serde_json::from_str(&turn_completed(
        None,
        Outcome::Incomplete,
        Some(Limit::Seconds),
        9,
        0,
    ))
    .unwrap();
    assert_eq!(timed_out["reason"], "seconds");
    let stopped: Value =
        serde_json::from_str(&turn_completed(None, Outcome::Stopped, None, 9, 1)).unwrap();
    assert!(stopped.get("reason").is_none(), "{stopped}");
    assert_eq!(stopped["provider_retries"], 1);

    let failed: Value = serde_json::from_str(&error("no model configured")).unwrap();
    assert_eq!(failed["type"], "error");
    assert_eq!(failed["message"], "no model configured");
}

// ---------------------------------------------------------------------------------------
// Further cases
// ---------------------------------------------------------------------------------------

/// The frames write what `serde_json` writes for the same object, byte for byte: reading a
/// line and writing it back gives the same line.
#[test]
fn every_frame_matches_what_serde_json_writes() {
    let lines = vec![
        warning("w \u{1} \u{1f} \u{7f} é \u{8}\u{c}"),
        error_coded("m", "rate_limit", true),
        command("/who", "nobody"),
        report("/sessions", "1. x"),
        status("waiting", false),
        heartbeat("waiting", true, 12),
        turn_started("hi \"there\""),
        turn_started_with(
            "see @a",
            &[Attachment { token: "@a".to_string(), path: "a".to_string(), bytes: 3, lines: 1 }],
        ),
        turn_completed(
            Some(Usage { prompt_tokens: 5, completion_tokens: 1, cache_hit_tokens: Some(4) }),
            Outcome::Incomplete,
            Some(Limit::Seconds),
            7,
            3,
        ),
    ];
    for line in lines {
        let parsed: Value = serde_json::from_str(&line).expect("a line must be JSON");
        assert_eq!(parsed.to_string(), line);
    }
    assert_eq!(
        turn_started_with(
            "see @a",
            &[Attachment { token: "@a".to_string(), path: "a".to_string(), bytes: 3, lines: 1 }],
        ),
        r#"{"attachments":[{"bytes":3,"lines":1,"path":"a","token":"@a"}],"prompt":"see @a","type":"turn.started"}"#
    );
    assert_eq!(
        error_coded("m", "rate_limit", true),
        r#"{"code":"rate_limit","message":"m","retryable":true,"type":"error"}"#
    );
    assert_eq!(
        warning("\u{1}"),
        r#"{"message":"\u0001","type":"warning"}"#
    );
}

#[test]
fn a_usage_line_carries_the_cache_split_only_when_reported() {
    let mut sink = Sink::new();
    let with = sink
        .line(&Event::Usage(Usage { prompt_tokens: 10, completion_tokens: 2, cache_hit_tokens: Some(8) }))
        .unwrap();
    assert_eq!(
        with,
        r#"{"cache_hit_tokens":8,"completion_tokens":2,"prompt_tokens":10,"total_tokens":12,"type":"usage"}"#
    );
    let without = sink
        .line(&Event::Usage(Usage { prompt_tokens: 1, completion_tokens: 1, cache_hit_tokens: None }))
        .unwrap();
    assert_eq!(without, r#"{"completion_tokens":1,"prompt_tokens":1,"total_tokens":2,"type":"usage"}"#);
}

#[test]
fn a_peer_message_has_no_line_and_the_answer_can_be_forgotten() {
    let mut sink = Sink::new();
    assert!(sink
        .line(&Event::Peer { from: "4242".to_string(), text: "hi".to_string() })
        .is_none());
    sink.line(&Event::Text("half an answer".to_string()));
    assert_eq!(sink.answer_so_far(), "half an answer");
    sink.forget_answer();
    assert_eq!(sink.answer_so_far(), "");
}

#[test]
fn tool_args_name_the_tool_and_a_result_forgets_it() {
    let mut sink = Sink::new();
    sink.line(&Event::ToolStart { id: "c".to_string(), name: "read".to_string() });
    sink.line(&Event::ToolStart { id: "c".to_string(), name: "write".to_string() });
    let args = sink.line(&Event::ToolArgs { id: "c".to_string(), args: "{}".to_string() }).unwrap();
    assert_eq!(args, r#"{"arguments":"{}","id":"c","name":"write","type":"tool.args"}"#);
    sink.line(&Event::ToolResult { id: "c".to_string(), output: String::new(), ok: true });
    let after = sink.line(&Event::ToolArgs { id: "c".to_string(), args: "{}".to_string() }).unwrap();
    assert_eq!(after, r#"{"arguments":"{}","id":"c","name":null,"type":"tool.args"}"#);
}

#[test]
fn the_result_line_carries_the_value_and_the_attempts() {
    let value = flint::json::Json::parse(r#"{"b":[1,true],"a":"x"}"#).unwrap();
    assert_eq!(
        flint::ndjson::result(&value, 2),
        r#"{"attempts":2,"json":{"a":"x","b":[1,true]},"type":"result"}"#
    );
}

#[test]
fn an_account_check_is_one_line_with_the_figures_it_has() {
    let mut b = flint::provider::Balance::verdict(Some(true), "balance");
    b.currency = Some("CNY".to_string());
    b.total = Some("12.50".to_string());
    assert_eq!(
        flint::ndjson::balance("deepseek", &b),
        r#"{"checked":"balance","currency":"CNY","provider":"deepseek","total_balance":"12.50","type":"balance","usable":true}"#
    );
    let none = flint::provider::Balance::verdict(None, "none");
    assert_eq!(
        flint::ndjson::balance("local", &none),
        r#"{"checked":"none","provider":"local","type":"balance","usable":null}"#
    );
    assert_eq!(flint::run::balance_code(Some(true)), flint::run::EXIT_OK);
    assert_eq!(flint::run::balance_code(Some(false)), flint::run::EXIT_UNAVAILABLE);
    assert_eq!(flint::run::balance_code(None), flint::run::EXIT_FAILURE);
}
