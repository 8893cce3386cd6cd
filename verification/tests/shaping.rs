use flint::json::Json;
use flint::schema::Schema;
use flint::shaping::{fence_body_of, judge_answer, json_in, schema_source, SchemaSource, Verdict};

fn schema() -> Schema {
    Schema::parse(r#"{"type":"object","required":["a"]}"#).unwrap()
}

#[test]
fn a_fenced_answer_is_read_inside_its_fence() {
    assert_eq!(fence_body_of("```json\n{\"a\":1}\n```"), "{\"a\":1}");
    assert_eq!(fence_body_of("  {\"a\":1} \n"), "{\"a\":1}");
    assert_eq!(fence_body_of("```{\"a\":1}```"), "{\"a\":1}");
    assert!(matches!(json_in("```\n[1]\n```"), Some(Json::Array(v)) if v.len() == 1));
    assert!(json_in("hello").is_none());
}

#[test]
fn an_answer_that_passes_is_accepted_with_its_result_line() {
    match judge_answer(&schema(), "{\"a\": 1}", 1) {
        Verdict::Accepted { line, file } => {
            assert_eq!(line, r#"{"attempts":1,"json":{"a":1},"type":"result"}"#);
            assert_eq!(file, "{\n  \"a\": 1\n}\n");
        }
        _ => panic!("the answer should pass"),
    }
}

#[test]
fn an_answer_that_fails_is_asked_for_again_with_its_problems() {
    match judge_answer(&schema(), "{\"b\": 1}", 1) {
        Verdict::Retry { errors, prompt } => {
            assert_eq!(errors, vec![r#"$: missing required property "a""#.to_string()]);
            assert!(prompt.starts_with("That answer does not match the schema."), "{prompt}");
            assert!(prompt.contains("- $: missing required property \"a\""), "{prompt}");
            assert!(prompt.ends_with("The answer you gave was:\n{\"b\": 1}"), "{prompt}");
        }
        _ => panic!("the answer should be asked for again"),
    }
}

#[test]
fn the_last_attempt_is_refused_with_every_problem() {
    match judge_answer(&schema(), "[]", 3) {
        Verdict::Refused { message } => assert_eq!(
            message,
            "the answer did not match the schema after 3 attempts:\n- $: expected object, found array"
        ),
        _ => panic!("the last attempt should be refused"),
    }
}

#[test]
fn an_answer_that_is_not_json_says_so_with_its_first_line() {
    match judge_answer(&schema(), "\n  \nhello there\nmore", 2) {
        Verdict::Retry { errors, .. } => assert_eq!(
            errors,
            vec![
                "the answer is not JSON at all, so no part of the schema could be checked: hello there"
                    .to_string()
            ]
        ),
        _ => panic!("the answer should be asked for again"),
    }
}

#[test]
fn the_schema_comes_from_the_flag_the_file_or_the_conversation() {
    assert!(matches!(schema_source(Some("{}"), true), SchemaSource::Conflict));
    assert!(matches!(schema_source(Some("  {\"type\":\"object\"}"), false), SchemaSource::Inline(t) if t == "  {\"type\":\"object\"}"));
    assert!(matches!(schema_source(Some("shape.json"), false), SchemaSource::File(p) if p == "shape.json"));
    assert!(matches!(schema_source(None, false), SchemaSource::Inherited));
    assert!(matches!(schema_source(None, true), SchemaSource::Unshaped));
}
