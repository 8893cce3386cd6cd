use flint::args::{parse_args, parse_u64, split_say};

fn argv(words: &[&str]) -> Vec<String> {
    words.iter().map(|w| w.to_string()).collect()
}

#[test]
fn bare_words_are_one_prompt() {
    let mut seen = false;
    let args = parse_args(argv(&["why", "is", "my", "dsh", "broken"]), &mut seen).unwrap();
    assert_eq!(args.prompt.as_deref(), Some("why is my dsh broken"));
    assert!(!seen);
}

#[test]
fn flags_with_values_take_the_next_argument() {
    let mut seen = false;
    let args = parse_args(
        argv(&["-p", "hi", "--provider", "deepseek", "--model", "m", "--max-seconds", "30", "--cwd", "/tmp"]),
        &mut seen,
    )
    .unwrap();
    assert_eq!(args.prompt.as_deref(), Some("hi"));
    assert_eq!(args.provider.as_deref(), Some("deepseek"));
    assert_eq!(args.model.as_deref(), Some("m"));
    assert_eq!(args.max_seconds, Some(30));
    assert_eq!(args.cwd.as_deref(), Some("/tmp"));
}

#[test]
fn json_is_recorded_even_when_the_line_is_refused() {
    let mut seen = false;
    let err = parse_args(argv(&["--json", "--bogus"]), &mut seen).unwrap_err();
    assert_eq!(err, "unknown flag '--bogus'. Try --help.");
    assert!(seen);
}

#[test]
fn each_refusal_says_why() {
    let cases: [(&[&str], &str); 8] = [
        (&["-p"], "--prompt requires a value"),
        (&["--max-seconds", "0"], "--max-seconds 0 would mean no time at all. Leave it out for no limit."),
        (&["--max-seconds", "soon"], "--max-seconds takes a whole number of seconds, not 'soon'"),
        (&["--port", "70000", "--web"], "--port needs a number from 0 to 65535, not '70000'"),
        (&["--port", "8080"], "--port needs --web: it chooses the port the browser view listens on"),
        (&["--out", "x.html"], "--out needs export: `flint export <n|id|path> --out <file>` writes the page there"),
        (&["exec"], "exec requires a command"),
        (&["debug"], "debug requires a subcommand. Known: prompt-input [message]"),
    ];
    for (words, expected) in cases {
        let mut seen = false;
        assert_eq!(parse_args(argv(words), &mut seen).unwrap_err(), expected, "{words:?}");
    }
    let mut seen = false;
    assert!(parse_args(argv(&["--web", "--json"]), &mut seen)
        .unwrap_err()
        .starts_with("--web and --json cannot both own the run"));
    assert!(parse_args(argv(&["export", "3", "extra"]), &mut seen)
        .unwrap_err()
        .starts_with("export takes no prompt"));
}

#[test]
fn resume_and_fork_take_a_session_only_when_one_follows() {
    let mut seen = false;
    let args = parse_args(argv(&["--resume", "-p", "x"]), &mut seen).unwrap();
    assert!(args.continue_last);
    assert_eq!(args.resume, None);
    let args = parse_args(argv(&["--resume", "abc"]), &mut seen).unwrap();
    assert_eq!(args.resume.as_deref(), Some("abc"));
    let args = parse_args(argv(&["--fork"]), &mut seen).unwrap();
    assert_eq!(args.fork.as_deref(), Some(""));
    let args = parse_args(argv(&["--fork", "exec", "ls"]), &mut seen).unwrap();
    assert_eq!(args.fork.as_deref(), Some(""));
    assert_eq!(args.exec_command.as_deref(), Some("ls"));
}

#[test]
fn words_after_a_command_belong_to_it() {
    let mut seen = false;
    let args = parse_args(argv(&["exec", "ls", "-la", "--json"]), &mut seen).unwrap();
    assert_eq!(args.exec_command.as_deref(), Some("ls -la --json"));
    assert!(!args.json);
    let args = parse_args(argv(&["say", "--to", "42", "hello", "--json", "there"]), &mut seen).unwrap();
    assert_eq!(args.say.as_deref(), Some("hello there"));
    assert_eq!(args.say_to, "42");
    assert!(args.json);
    assert!(parse_args(argv(&["say", "--to", "42"]), &mut seen)
        .unwrap_err()
        .starts_with("say requires a message."));
    let args = parse_args(argv(&["debug", "prompt-input", "hi"]), &mut seen).unwrap();
    assert_eq!(args.debug, Some(vec!["prompt-input".to_string(), "hi".to_string()]));
    let args = parse_args(argv(&["--web", "--port", "0"]), &mut seen).unwrap();
    assert_eq!(args.port, Some(0));
}

#[test]
fn numbers_are_read_as_u64_from_str_reads_them() {
    assert_eq!(parse_u64("+12"), Some(12));
    assert_eq!(parse_u64("007"), Some(7));
    assert_eq!(parse_u64("18446744073709551615"), Some(u64::MAX));
    assert_eq!(parse_u64("18446744073709551616"), None);
    assert_eq!(parse_u64(""), None);
    assert_eq!(parse_u64("+"), None);
    assert_eq!(parse_u64("-1"), None);
    assert_eq!(parse_u64("1 "), None);
}

#[test]
fn say_keeps_its_own_flags_out_of_the_message() {
    let words = argv(&["--to=7", "--cwd=/w", "hi", "-t", "8", "there"]);
    let said = split_say(&words);
    assert_eq!(said.to, "8");
    assert_eq!(said.cwd.as_deref(), Some("/w"));
    assert_eq!(said.text, vec!["hi".to_string(), "there".to_string()]);
    assert!(!said.json);
}
