use flint::args::parse_args;
use flint::provider::Balance;
use flint::run::{browser_invocation, Os, Progress};
use flint::event::Event;
use flint::search::ProviderConfig;
use flint::provider::ProviderFailure;
use flint::run::{
    ensure_usable, error_frame, exit_code_for, failure_code, human_balance, pick_session,
    resolve_thinking, session_refusal, usage_refusal, SessionEntry, EXIT_FAILURE, EXIT_TEMPFAIL,
    EXIT_UNAVAILABLE, EXIT_USAGE,
};

#[test]
fn the_cause_decides_the_exit_code() {
    let failure = |code: &'static str, retryable: bool| ProviderFailure {
        code,
        retryable,
        message: format!("a {code} failure"),
    };

    for code in ["insufficient_balance", "auth", "no_key"] {
        assert_eq!(
            exit_code_for(Some(&failure(code, false)), false),
            EXIT_UNAVAILABLE,
            "{code} is not a generic failure"
        );
    }
    for code in ["rate_limit", "server", "network"] {
        assert_eq!(
            exit_code_for(Some(&failure(code, true)), false),
            EXIT_TEMPFAIL,
            "{code} is worth another try, and the code has to say so"
        );
    }
    assert_eq!(
        exit_code_for(Some(&failure("insufficient_balance", true)), false),
        EXIT_TEMPFAIL,
        "the retryable flag is the provider's answer, not a hint"
    );
    assert_eq!(exit_code_for(Some(&failure("unknown", false)), false), EXIT_FAILURE);
    assert_eq!(exit_code_for(None, false), EXIT_FAILURE);
    assert_eq!(
        exit_code_for(None, true),
        EXIT_UNAVAILABLE,
        "a provider known to be unconfigured is the same fault arriving late"
    );
}

fn args(words: &[&str]) -> flint::args::Args {
    let mut seen = false;
    parse_args(words.iter().map(|w| w.to_string()).collect(), &mut seen).expect("accepted")
}

#[test]
fn some_runs_are_refused_before_anything_is_read() {
    assert!(usage_refusal(&args(&["--result-file", "out.json", "-p", "x"]))
        .unwrap()
        .starts_with("--result-file needs a prompt and --json"));
    assert_eq!(usage_refusal(&args(&["--result-file", "out.json", "-p", "x", "--json"])), None);
    assert!(usage_refusal(&args(&["--hear-peers", "-p", "x"]))
        .unwrap()
        .starts_with("--hear-peers relays"));
    assert!(usage_refusal(&args(&["--max-seconds", "5"]))
        .unwrap()
        .starts_with("--max-seconds bounds a call"));
    assert!(usage_refusal(&args(&["--no-session", "--name", "x"]))
        .unwrap()
        .starts_with("--no-session writes no conversation"));
    assert_eq!(usage_refusal(&args(&["-p", "hello"])), None);
    assert_eq!(
        session_refusal(&args(&["--archive", "1", "--delete", "2"])),
        Some("use either --archive or --delete, not both".to_string())
    );
    assert!(session_refusal(&args(&["--fork", "a", "-c"])).unwrap().starts_with("--fork copies"));
    assert_eq!(session_refusal(&args(&["--fork", "a"])), None);
}

fn entry(id: &str, path: &str) -> SessionEntry {
    SessionEntry { id: id.to_string(), path: path.to_string() }
}

#[test]
fn a_session_is_picked_by_number_by_prefix_or_by_path() {
    let listed = vec![entry("abc123", "/s/abc123.jsonl"), entry("abd999", "/s/abd999.jsonl")];
    let archived = vec![entry("zzz000", "/s/archive/zzz000.jsonl")];
    assert_eq!(pick_session("2", &listed, &archived, false), Ok("/s/abd999.jsonl".to_string()));
    assert_eq!(
        pick_session("3", &listed, &archived, false),
        Err("no session 3: /sessions lists 2 (1 is the most recent)".to_string())
    );
    assert_eq!(
        pick_session("0", &listed, &archived, false),
        Err("no session 0: /sessions lists 2 (1 is the most recent)".to_string())
    );
    assert_eq!(pick_session("abc", &listed, &archived, false), Ok("/s/abc123.jsonl".to_string()));
    assert_eq!(
        pick_session("zzz000.jsonl", &listed, &archived, false),
        Ok("/s/archive/zzz000.jsonl".to_string())
    );
    assert_eq!(
        pick_session("ab", &listed, &archived, false),
        Err("'ab' matches 2 sessions: abc123, abd999. Use a longer prefix.".to_string())
    );
    assert_eq!(pick_session("./x.jsonl", &listed, &archived, true), Ok("./x.jsonl".to_string()));
    assert_eq!(
        pick_session("nope", &listed, &archived, false),
        Err("no session matches 'nope'. Run `flint --list-sessions` or `/sessions`.".to_string())
    );
}

#[test]
fn a_balance_is_said_in_one_of_three_ways() {
    let mut b = Balance::verdict(Some(true), "balance");
    b.total = Some("12.50".to_string());
    b.currency = Some("CNY".to_string());
    b.granted = Some("2.50".to_string());
    b.topped_up = Some("10.00".to_string());
    assert_eq!(
        human_balance("deepseek", &b),
        "deepseek: usable -- 12.50 CNY left (2.50 granted, 10.00 topped up)"
    );
    b.usable = Some(false);
    b.granted = None;
    assert_eq!(human_balance("deepseek", &b), "deepseek: not usable -- 12.50 CNY left");
    let models = Balance::verdict(Some(true), "models");
    assert!(human_balance("local", &models)
        .starts_with("local: usable -- /models answered. This provider publishes no balance"));
    let none = Balance::verdict(None, "none");
    assert!(human_balance("odd", &none).starts_with("odd: cannot tell -- "));
    let refused = Balance::verdict(Some(false), "balance");
    assert!(human_balance("x", &refused).starts_with("x: not usable -- the provider will not serve"));
}

#[test]
fn the_reasoning_level_comes_from_the_flag_then_the_session_then_the_config() {
    assert_eq!(resolve_thinking(Some(" high "), Some("low"), "off"), Ok("high".to_string()));
    assert_eq!(resolve_thinking(None, Some("low"), "off"), Ok("low".to_string()));
    assert_eq!(resolve_thinking(None, None, "medium"), Ok("medium".to_string()));
    assert_eq!(
        resolve_thinking(Some("max"), None, "off"),
        Err("unknown thinking level 'max': use one of off, low, medium, high".to_string())
    );
}

#[test]
fn a_provider_without_a_key_is_refused_unless_it_is_local() {
    let mut p = ProviderConfig {
        name: "deepseek".to_string(),
        base_url: "https://api.deepseek.com".to_string(),
        api_key: "  ".to_string(),
        api_key_env: Some("DEEPSEEK_API_KEY".to_string()),
        key_in_env: None,
        proxy: None,
        model: "deepseek-chat".to_string(),
        thinking_field: String::new(),
    };
    let refused = ensure_usable(&p, "/home/me/.flint/config.toml").unwrap_err();
    assert!(refused.starts_with("provider 'deepseek' has no API key.\nFix it without leaving flint:"));
    assert!(refused.ends_with(
        "Or set the environment variable DEEPSEEK_API_KEY, or edit /home/me/.flint/config.toml."
    ));
    p.key_in_env = Some("sk-1".to_string());
    assert_eq!(ensure_usable(&p, "c"), Ok(()));
    p.key_in_env = None;
    p.base_url = "http://LOCALHOST:8080/v1".to_string();
    assert_eq!(ensure_usable(&p, "c"), Ok(()));
}

#[test]
fn a_failure_is_framed_and_coded_by_its_cause() {
    let failure = ProviderFailure::from_response("deepseek", 402, "Payment Required", "");
    assert_eq!(
        error_frame("out of money", Some(&failure)),
        format!(
            r#"{{"code":"{}","message":"out of money","retryable":false,"type":"error"}}"#,
            failure.code
        )
    );
    assert_eq!(error_frame("boom", None), r#"{"message":"boom","type":"error"}"#);
    assert_eq!(failure_code(true, Some(&failure)), EXIT_USAGE);
    assert_eq!(failure_code(false, None), EXIT_FAILURE);
}

#[test]
fn the_browser_line_is_a_quoted_command_line() {
    let url = "http://127.0.0.1:3080/?a=1&b=2";
    let run = browser_invocation(Os::Windows, url);
    assert_eq!(run.program, "cmd");
    assert_eq!(run.args, vec!["/S".to_string(), "/C".to_string()]);
    let raw = run.raw.expect("cmd needs the line verbatim");
    assert_eq!(raw, format!("\"start \"\" \"{url}\"\""));
    assert!(raw.contains(&format!("\"{url}\"")), "{raw}");
    assert!(raw.starts_with("\"start \"\" "), "{raw}");

    for (os, program) in [(Os::MacOs, "open"), (Os::Other, "xdg-open")] {
        let run = browser_invocation(os, url);
        assert_eq!(run.raw, None, "only cmd needs the verbatim form");
        assert_eq!(run.program, program);
        assert_eq!(run.args, vec![url.to_string()]);
    }
}

#[test]
fn a_heartbeat_names_the_step_and_a_new_step_is_a_new_wait() {
    let mut p = Progress::new();
    assert_eq!(p.doing, "thinking");
    assert!(p.fresh && p.running);
    p.fresh = false;
    p.saw(&Event::Text("hello".to_string()));
    assert_eq!(p.doing, "writing the answer");
    assert!(p.fresh);
    p.fresh = false;
    p.saw(&Event::Reasoning("hm".to_string()));
    assert!(!p.fresh, "the same step is the same wait");
    p.saw(&Event::ToolStart { id: "1".to_string(), name: "bash".to_string() });
    assert_eq!(p.doing, "running bash");
    p.saw(&Event::Done);
    assert_eq!(p.doing, "running bash");
    p.saw(&Event::Status { text: "waiting for the provider".to_string(), restarted: true });
    assert_eq!(p.doing, "waiting for the provider");
    p.saw(&Event::ToolResult { id: "1".to_string(), output: String::new(), ok: true });
    assert_eq!(p.doing, "thinking");
}

#[test]
fn an_export_is_titled_by_the_last_title_and_refused_without_a_message() {
    let lines: Vec<String> = vec![
        r#"{"type":"meta","cwd":"/w"}"#.to_string(),
        r#"{"type":"title","name":"first name"}"#.to_string(),
        r#"{"type":"chat","role":"user","content":"hi"}"#.to_string(),
        "not json".to_string(),
        r#"{"type":"title","name":"second name"}"#.to_string(),
        r#"{"type":"title"}"#.to_string(),
    ];
    assert_eq!(
        flint::run::export_plan("/s/20260101-1.jsonl", Some("20260101-1"), &lines),
        Ok("second name".to_string())
    );
    let untitled: Vec<String> = vec![r#"{"type":"chat"}"#.to_string()];
    assert_eq!(
        flint::run::export_plan("/s/20260101-1.jsonl", Some("20260101-1"), &untitled),
        Ok("20260101-1".to_string())
    );
    assert_eq!(
        flint::run::export_plan("/s/odd", None, &untitled),
        Ok("/s/odd".to_string())
    );
    let silent: Vec<String> = vec![r#"{"type":"title","name":"n"}"#.to_string()];
    assert_eq!(
        flint::run::export_plan("/s/x.jsonl", Some("x"), &silent),
        Err("/s/x.jsonl has no conversation in it: there is nothing to export".to_string())
    );
}
