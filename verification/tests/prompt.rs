use flint::prompt::{follow_up, split_to};

#[test]
fn a_word_that_only_starts_like_queue_is_not_the_command() {
    assert_eq!(follow_up("/queue"), Some(""));
    assert_eq!(follow_up("/queue   "), Some(""));
    assert_eq!(follow_up("/queue and then check the tests"), Some("and then check the tests"));
    assert_eq!(follow_up("  /queue indented"), Some("indented"));
    assert_eq!(follow_up("/queuex hi"), None);
    assert_eq!(follow_up("queue hi"), None);
    assert_eq!(follow_up("tell me about /queue"), None);
    assert_eq!(follow_up("/queued"), None);
}

#[test]
fn says_flags_are_split_off_before_the_words_are() {
    assert_eq!(split_to("hello there"), (String::new(), "hello there"));
    assert_eq!(
        split_to("--to 4242 hello there"),
        ("4242".to_string(), "hello there")
    );
    assert_eq!(split_to("--to 4242"), ("4242".to_string(), ""));
    assert_eq!(
        split_to("--to4242 hello"),
        (String::new(), "--to4242 hello")
    );
    assert_eq!(
        split_to("  take --to 9 seriously"),
        (String::new(), "take --to 9 seriously")
    );
}

// ---------------------------------------------------------------------------------------
// Further cases
// ---------------------------------------------------------------------------------------

use flint::event::{Message, ToolCall};
use flint::prompt::{transcript, Tone};
use flint::prompt::{
    counted, file_name_of, first_line, flag_at_the_prompt, for_the_repl, repair_prompt,
    sent_note, split_first, takes_argument, wrap,
};

#[test]
fn the_first_word_and_the_rest() {
    assert_eq!(split_first("  ask   about this "), ("ask", "about this "));
    assert_eq!(split_first("one"), ("one", ""));
    assert_eq!(split_first(""), ("", ""));
}

#[test]
fn a_command_takes_an_argument_only_after_a_space() {
    assert!(takes_argument("/send", "/send file.txt"));
    assert!(!takes_argument("/send", "/sendfile"));
    assert!(!takes_argument("/send", "/send"));
}

#[test]
fn a_flag_typed_at_the_prompt_is_answered_with_its_command() {
    assert_eq!(
        flag_at_the_prompt("--port 8080"),
        Some(("/web 8080".to_string(), "--web takes the port".to_string()))
    );
    assert_eq!(
        flag_at_the_prompt("--json"),
        Some((
            String::new(),
            "that one is only read when flint starts, so it has to be on the command line".to_string()
        ))
    );
    assert_eq!(flag_at_the_prompt("--port eighty"), None);
    assert_eq!(flag_at_the_prompt("--web now please"), None);
    assert_eq!(flag_at_the_prompt("hello"), None);
    assert!(for_the_repl("/help"));
    assert!(for_the_repl("!ls"));
    assert!(for_the_repl("--help"));
    assert!(!for_the_repl("what is --help"));
}

#[test]
fn small_sentences_are_exact() {
    assert_eq!(counted(1, "message"), "1 message");
    assert_eq!(counted(0, "message"), "0 messages");
    assert_eq!(counted(12, "file"), "12 files");
    assert_eq!(file_name_of("C:\\work\\notes.txt"), "notes.txt");
    assert_eq!(file_name_of("/tmp/a/b.md"), "b.md");
    assert_eq!(file_name_of("plain"), "plain");
    assert_eq!(sent_note("héllo", Some("a.txt")), "  sent 5 characters from a.txt");
    assert_eq!(sent_note("", None), "  sent 0 characters");
}

#[test]
fn wrapping_breaks_before_the_word_that_would_overflow() {
    assert_eq!(wrap("aa bb cc", 5), vec!["aa bb", "cc"]);
    assert_eq!(wrap("toolongword x", 4), vec!["toolongword", "x"]);
    assert_eq!(wrap("", 10), vec![""]);
}

#[test]
fn the_repair_prompt_lists_each_problem() {
    let text = repair_prompt("{}", &["$.a: missing".to_string(), "$.b: wrong".to_string()]);
    assert_eq!(
        text,
        "That answer does not match the schema. Fix it and answer again with the corrected JSON object and nothing else.\n\nWhat was wrong:\n- $.a: missing\n- $.b: wrong\n\nThe answer you gave was:\n{}"
    );
}

#[test]
fn the_first_line_with_anything_on_it() {
    assert_eq!(first_line("\n  \nreal line\nmore"), "real line");
    assert_eq!(first_line(""), "");
    let long = "y".repeat(250);
    let cut = first_line(&long);
    assert_eq!(cut.chars().count(), 201);
    assert!(cut.ends_with('…'));
}

#[test]
fn a_replay_shows_the_last_messages_and_says_how_many_are_left_out() {
    let mut history = vec![Message::System { content: "you are flint".to_string() }];
    history.push(Message::User { content: "list the files".to_string() });
    history.push(Message::Assistant {
        content: Some("  Looking.  ".to_string()),
        reasoning: None,
        tool_calls: vec![ToolCall {
            id: "c1".to_string(),
            name: "bash".to_string(),
            arguments: "{}".to_string(),
        }],
    });
    history.push(Message::Tool {
        tool_call_id: "c1".to_string(),
        content: format!("  {}  \nsecond line", "x".repeat(150)),
    });
    history.push(Message::Assistant { content: None, reasoning: None, tool_calls: Vec::new() });
    let (heading, lines) = transcript(&history);
    assert_eq!(heading, "── resumed transcript ──");
    assert_eq!(
        lines,
        vec![
            (Tone::Asked, "list the files".to_string()),
            (Tone::Said, "Looking.".to_string()),
            (Tone::Aside, "  ✓ bash".to_string()),
            (Tone::Aside, format!("  │ {}", "x".repeat(100))),
        ]
    );

    let many: Vec<Message> = (0..15)
        .map(|n| Message::User { content: format!("question {n}") })
        .collect();
    let (heading, lines) = transcript(&many);
    assert_eq!(heading, "── — 3 earlier messages, resumed transcript ──");
    assert_eq!(lines.len(), 12);
    assert_eq!(lines[0], (Tone::Asked, "question 3".to_string()));
}
