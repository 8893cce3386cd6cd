use flint::json::Json;
use flint::schema::Schema;

fn schema(text: &str) -> Schema {
    Schema::parse(text).expect("the test's schema should parse")
}

fn value(text: &str) -> Json {
    Json::parse(text).expect("the test's value should be JSON")
}

fn check(text: &str, answer: &str) -> Vec<String> {
    schema(text).validate(&value(answer))
}

/// The one message whose path is `path`. Messages are `{path}: {problem}`, and matching on
/// the colon keeps `$.a` from being found by a search for `$`.
fn error_at<'a>(problems: &'a [String], path: &str) -> &'a str {
    let wanted = format!("{path}:");
    problems
        .iter()
        .find(|problem| problem.starts_with(&wanted))
        .map(String::as_str)
        .unwrap_or_else(|| panic!("no error at {path} in {problems:?}"))
}

fn is_text(j: &Json, t: &str) -> bool {
    matches!(j, Json::Str(s) if s == t)
}

fn is_number(j: &Json, t: &str) -> bool {
    matches!(j, Json::Number(n) if n.text == t)
}

#[test]
fn a_valid_nested_instance_validates_with_no_errors() {
    let text = r#"{
        "type": "object",
        "properties": {
            "trading_day": { "type": "string" },
            "session": {
                "type": "object",
                "properties": { "open": { "type": "number" } },
                "required": ["open"]
            }
        },
        "required": ["trading_day", "session"]
    }"#;
    let problems = check(text, r#"{"trading_day": "2024-01-02", "session": {"open": 9.5}}"#);
    assert_eq!(problems, Vec::<String>::new());
}

#[test]
fn a_missing_required_property_is_reported_by_name() {
    let text = r#"{"type":"object","properties":{"a":{"type":"string"}},"required":["b"]}"#;
    let problems = check(text, r#"{"a": "here"}"#);
    assert_eq!(problems.len(), 1, "{problems:?}");
    assert_eq!(problems[0], r#"$: missing required property "b""#);
}

#[test]
fn a_wrong_type_is_reported_with_its_json_path() {
    let text = r#"{"type":"object","properties":{
        "trading_day":{"type":"string"},
        "session":{"type":"object","properties":{"open":{"type":"string"}}}
    }}"#;
    let problems = check(text, r#"{"trading_day": 3, "session": {"open": 4}}"#);
    assert_eq!(problems.len(), 2, "{problems:?}");
    assert_eq!(
        error_at(&problems, "$.trading_day"),
        "$.trading_day: expected string, found number"
    );
    assert_eq!(
        error_at(&problems, "$.session.open"),
        "$.session.open: expected string, found number"
    );
}

#[test]
fn additional_properties_false_refuses_an_extra_property() {
    let text =
        r#"{"type":"object","properties":{"a":{"type":"string"}},"additionalProperties":false}"#;
    let problems = check(text, r#"{"a": "fine", "extra": 1}"#);
    assert_eq!(problems.len(), 1, "{problems:?}");
    assert_eq!(
        problems[0],
        r#"$: unexpected property "extra" (additionalProperties is false)"#
    );
}

#[test]
fn an_enum_mismatch_is_reported_with_the_allowed_values() {
    let text = r#"{"type":"object","properties":{"status":{"enum":["ok","failed"]}}}"#;
    let problems = check(text, r#"{"status": "maybe"}"#);
    assert_eq!(problems.len(), 1, "{problems:?}");
    assert_eq!(
        error_at(&problems, "$.status"),
        r#"$.status: "maybe" is not one of the allowed values ("ok", "failed")"#
    );
}

#[test]
fn array_items_are_validated_per_element_and_the_path_carries_the_index() {
    let text = r#"{"type":"array","items":{"type":"object",
        "properties":{"n":{"type":"integer"}}}}"#;
    let problems = check(text, r#"[{"n": 1}, {"n": "two"}]"#);
    assert_eq!(problems.len(), 1, "{problems:?}");
    assert_eq!(
        error_at(&problems, "$[1].n"),
        "$[1].n: expected integer, found string"
    );
}

#[test]
fn min_length_maximum_and_min_items_are_enforced() {
    let text = r#"{"type":"object","properties":{
        "name":{"type":"string","minLength":3},
        "age":{"type":"integer","maximum":10},
        "tags":{"type":"array","minItems":2}
    }}"#;
    let problems = check(text, r#"{"name": "ab", "age": 11, "tags": ["only"]}"#);
    assert_eq!(problems.len(), 3, "{problems:?}");
    assert_eq!(
        error_at(&problems, "$.name"),
        "$.name: expected at least minLength 3 characters, found 2"
    );
    assert_eq!(
        error_at(&problems, "$.age"),
        "$.age: 11 is greater than the maximum 10"
    );
    assert_eq!(
        error_at(&problems, "$.tags"),
        "$.tags: expected at least minItems 2, found 1"
    );
}

#[test]
fn minimum_max_length_and_max_items_are_enforced() {
    let text = r#"{"type":"object","properties":{
        "age":{"type":"integer","minimum":18},
        "code":{"type":"string","maxLength":3},
        "tags":{"type":"array","maxItems":1}
    }}"#;
    let problems = check(text, r#"{"age": 17, "code": "abcd", "tags": ["a", "b"]}"#);
    assert_eq!(problems.len(), 3, "{problems:?}");
    assert_eq!(
        error_at(&problems, "$.age"),
        "$.age: 17 is less than the minimum 18"
    );
    assert_eq!(
        error_at(&problems, "$.code"),
        "$.code: expected at most maxLength 3 characters, found 4"
    );
    assert_eq!(
        error_at(&problems, "$.tags"),
        "$.tags: expected at most maxItems 1, found 2"
    );
}

#[test]
fn a_min_length_counts_characters_and_not_bytes() {
    // Two characters, four bytes: a byte count would call this long enough.
    let problems = check(r#"{"type":"string","minLength":3}"#, r#""éü""#);
    assert_eq!(problems.len(), 1, "{problems:?}");
    assert_eq!(
        problems[0],
        "$: expected at least minLength 3 characters, found 2"
    );
}

#[test]
fn a_type_union_accepts_each_member_and_refuses_anything_else() {
    let text = r#"{"type":"object","properties":{"note":{"type":["string","null"]}}}"#;
    assert_eq!(check(text, r#"{"note": "text"}"#), Vec::<String>::new());
    assert_eq!(check(text, r#"{"note": null}"#), Vec::<String>::new());
    let problems = check(text, r#"{"note": 7}"#);
    assert_eq!(problems.len(), 1, "{problems:?}");
    assert_eq!(
        error_at(&problems, "$.note"),
        "$.note: expected string or null, found number"
    );
}

#[test]
fn a_whole_number_written_as_a_decimal_counts_as_an_integer() {
    assert_eq!(check(r#"{"type":"integer"}"#, "3.0"), Vec::<String>::new());
    let problems = check(r#"{"type":"integer"}"#, "3.5");
    assert_eq!(problems.len(), 1, "{problems:?}");
    assert_eq!(problems[0], "$: expected integer, found number");
}

#[test]
fn parse_refuses_a_keyword_flint_does_not_validate() {
    let problem = Schema::parse(r#"{"type":"object","oneOf":[{"type":"string"}]}"#)
        .expect_err("oneOf is not in the subset");
    assert!(problem.contains("oneOf"), "{problem}");
    assert!(
        problem.contains("type/properties/required/items/enum"),
        "{problem}"
    );

    let nested = Schema::parse(r#"{"type":"array","items":{"pattern":"^a"}}"#)
        .expect_err("pattern is not in the subset");
    assert!(nested.contains("pattern"), "{nested}");

    let formatted = Schema::parse(r#"{"type":"string","format":"date"}"#)
        .expect_err("format is not in the subset");
    assert!(formatted.contains("format"), "{formatted}");
}

#[test]
fn parse_refuses_a_schema_that_is_not_an_object() {
    let problem = Schema::parse(r#"["string"]"#).expect_err("a schema must be an object");
    assert!(problem.contains("JSON object"), "{problem}");
}

#[test]
fn parse_refuses_text_that_is_not_json() {
    let problem = Schema::parse("{type: string}").expect_err("that is not JSON");
    assert!(problem.contains("not valid JSON"), "{problem}");
}

#[test]
fn the_example_has_exactly_the_properties_the_schema_names() {
    let text = r#"{"type":"object","properties":{
        "trading_day":{"type":"string"},
        "count":{"type":"integer"},
        "session":{"type":"object","properties":{"open":{"type":"boolean"}}}
    }}"#;
    let example = schema(text).example();
    let fields = match &example {
        Json::Object(m) => m,
        other => panic!("the example should be an object, got {other:?}"),
    };
    let mut names: Vec<&str> = fields.iter().map(|(k, _)| k.as_str()).collect();
    names.sort();
    assert_eq!(names, ["count", "session", "trading_day"]);
    assert!(is_number(example.get("count").unwrap(), "0"));
    let open = example.get("session").unwrap().get("open").unwrap();
    assert!(matches!(open, Json::Bool(true)));
}

#[test]
fn an_array_example_has_one_element_and_an_enum_example_is_its_first_value() {
    let text = r#"{"type":"object","properties":{
        "tags":{"type":"array","items":{"type":"string"}},
        "empty":{"type":"array"}
    }}"#;
    let example = schema(text).example();
    match example.get("tags").unwrap() {
        Json::Array(items) => {
            assert_eq!(items.len(), 1);
            assert!(is_text(&items[0], "string"));
        }
        other => panic!("tags should be an array, got {other:?}"),
    }
    assert!(matches!(example.get("empty").unwrap(), Json::Array(items) if items.is_empty()));
    assert!(is_text(
        &schema(r#"{"type":"string","enum":["a","b"]}"#).example(),
        "a"
    ));
}

#[test]
fn the_prompt_section_states_json_and_shows_the_schema_and_the_example() {
    let text = r#"{"type":"object","properties":{"trading_day":{"type":"string"}},
        "required":["trading_day"]}"#;
    let prompt = schema(text).prompt_section();
    assert!(prompt.contains("json"), "{prompt}");
    assert!(prompt.contains("nothing else"), "{prompt}");
    assert!(prompt.contains("no markdown code fence"), "{prompt}");
    assert!(prompt.contains(r#""properties": {"#), "{prompt}");
    assert!(prompt.contains(r#""required": ["#), "{prompt}");
    assert!(prompt.contains(r#""trading_day": "string""#), "{prompt}");
}

// ---------------------------------------------------------------------------------------
// Further cases
// ---------------------------------------------------------------------------------------

#[test]
fn a_valid_answer_has_no_problems_and_a_wrong_one_has_one_per_problem() {
    let text = r#"{"type":"object","properties":{"a":{"type":"string"},"b":{"type":"integer"}},
        "required":["a","b"]}"#;
    assert_eq!(check(text, r#"{"a":"x","b":2}"#), Vec::<String>::new());
    let problems = check(text, r#"{"b":"two"}"#);
    assert_eq!(
        problems,
        vec![
            r#"$: missing required property "a""#.to_string(),
            "$.b: expected integer, found string".to_string(),
        ]
    );
}

#[test]
fn a_wrong_root_type_is_the_only_problem_reported() {
    let text = r#"{"type":"object","required":["a"],"additionalProperties":false}"#;
    assert_eq!(
        check(text, "[1,2]"),
        vec!["$: expected object, found array".to_string()]
    );
}

#[test]
fn an_enum_mismatch_hides_the_type_problem_and_a_long_enum_is_cut() {
    let text = r#"{"type":"string","enum":[1,2,3,4,5,6,7,8,9,10,11,12]}"#;
    assert_eq!(
        check(text, "true"),
        vec![
            "$: true is not one of the allowed values (1, 2, 3, 4, 5, 6, 7, 8, 9, 10, ...)"
                .to_string()
        ]
    );
    assert_eq!(
        check(text, "12"),
        vec!["$: expected string, found number".to_string()]
    );
}

#[test]
fn numbers_compare_exactly_across_their_written_forms() {
    let text = r#"{"type":"number","minimum":0.5,"maximum":1e3}"#;
    assert_eq!(check(text, "0.5"), Vec::<String>::new());
    assert_eq!(check(text, "1000"), Vec::<String>::new());
    assert_eq!(
        check(text, "0.25"),
        vec!["$: 0.25 is less than the minimum 0.5".to_string()]
    );
    assert_eq!(
        check(text, "1001"),
        vec!["$: 1001 is greater than the maximum 1000".to_string()]
    );
    assert_eq!(
        check(r#"{"minimum":-2}"#, "-3"),
        vec!["$: -3 is less than the minimum -2".to_string()]
    );
    assert_eq!(check(r#"{"maximum":-2}"#, "-3"), Vec::<String>::new());
}

#[test]
fn a_bound_reads_as_a_plain_decimal() {
    assert_eq!(
        check(r#"{"maximum":2.50}"#, "3"),
        vec!["$: 3 is greater than the maximum 2.5".to_string()]
    );
    assert_eq!(
        check(r#"{"maximum":1e-7}"#, "1"),
        vec!["$: 1 is greater than the maximum 0.0000001".to_string()]
    );
}

#[test]
fn a_long_value_is_cut_in_a_message() {
    let long = "a".repeat(80);
    let problems = check(r#"{"enum":["x"]}"#, &format!("\"{long}\""));
    let shown = format!("\"{}...", "a".repeat(59));
    assert_eq!(
        problems,
        vec![format!("$: {shown} is not one of the allowed values (\"x\")")]
    );
}

#[test]
fn each_refused_keyword_shape_has_its_message() {
    let refused = |text: &str| Schema::parse(text).expect_err("should be refused");
    assert_eq!(
        refused(r#"{"type":"file"}"#),
        r#"$.type: flint does not know the type "file"; it knows object, array, string, number, integer, boolean, null"#
    );
    assert_eq!(
        refused(r#"{"type":[]}"#),
        "$.type: an empty array of types accepts nothing; drop the keyword to accept any type"
    );
    assert_eq!(
        refused(r#"{"type":["string",3]}"#),
        "$.type: every entry must be a type name, found 3"
    );
    assert_eq!(
        refused(r#"{"type":3}"#),
        "$.type: expected a type name or an array of type names, found 3"
    );
    assert_eq!(
        refused(r#"{"required":"name"}"#),
        r#"$.required: expected an array of property names, found "name""#
    );
    assert_eq!(
        refused(r#"{"required":[1]}"#),
        "$.required: every entry must be a property name, found 1"
    );
    assert_eq!(
        refused(r#"{"additionalProperties":{}}"#),
        "$.additionalProperties: expected true or false, found {}"
    );
    assert_eq!(
        refused(r#"{"enum":[]}"#),
        "$.enum: an empty list of values matches nothing; drop the keyword to accept any value"
    );
    assert_eq!(
        refused(r#"{"enum":{}}"#),
        "$.enum: expected an array of allowed values, found {}"
    );
    assert_eq!(
        refused(r#"{"minimum":"1"}"#),
        r#"$.minimum: expected a number, found "1""#
    );
    assert_eq!(
        refused(r#"{"minLength":-1}"#),
        "$.minLength: expected a whole number, found -1"
    );
    assert_eq!(
        refused(r#"{"maxItems":1.5}"#),
        "$.maxItems: expected a whole number, found 1.5"
    );
    assert_eq!(
        refused(r#"{"properties":[]}"#),
        "$.properties: expected an object mapping property names to subschemas, found []"
    );
    assert_eq!(
        refused(r#"{"properties":{"a":{"items":3}}}"#),
        "$.properties.a.items: a subschema must be a JSON object, found 3"
    );
    assert_eq!(
        refused(r#"{"format":"date"}"#),
        r#"$: flint does not validate "format" — a pattern or a date format it cannot enforce exactly is not a guarantee; check the answer in your own program, or drop the keyword"#
    );
}

#[test]
fn annotations_and_whole_decimal_lengths_are_accepted() {
    let sc = schema(
        r#"{"title":"t","description":"d","default":1,"examples":[],"$comment":"c",
            "type":"string","minLength":2.0}"#,
    );
    assert_eq!(
        sc.validate(&value(r#""a""#)),
        vec!["$: expected at least minLength 2 characters, found 1".to_string()]
    );
    assert!(is_text(&sc.example(), "string"));
}

#[test]
fn the_string_example_is_padded_to_its_minimum_length() {
    let sc = schema(r#"{"type":"string","minLength":9}"#);
    assert!(is_text(&sc.example(), "stringxxx"));
    let sc = schema(r#"{"type":["integer","null"]}"#);
    assert!(is_number(&sc.example(), "0"));
    let sc = schema(r#"{"items":{"type":"boolean"}}"#);
    assert!(matches!(sc.example(), Json::Array(items) if matches!(items[0], Json::Bool(true))));
    let sc = schema(r#"{}"#);
    assert!(matches!(sc.example(), Json::Null));
}

#[test]
fn an_array_root_is_asked_for_as_a_json_array() {
    let prompt = schema(r#"{"type":"array","items":{"type":"string"}}"#).prompt_section();
    assert!(prompt.starts_with("Reply with a single json array and nothing else"), "{prompt}");
    let prompt = schema(r#"{"type":"object"}"#).prompt_section();
    assert!(prompt.starts_with("Reply with a single json object and nothing else"), "{prompt}");
    assert!(prompt.ends_with("```json\n{}\n```\n"), "{prompt}");
}

#[test]
fn the_raw_schema_is_the_one_written() {
    let sc = schema(r#"{"type":"string"}"#);
    assert!(matches!(sc.raw().get("type"), Some(t) if is_text(t, "string")));
}

#[test]
fn the_example_of_a_schema_passes_it() {
    let text = r#"{"type":"object","additionalProperties":false,"required":["name","list"],
        "properties":{
        "list":{"type":"array","items":{"type":["integer","null"]},"minItems":2},
        "flag":{"type":"boolean"},
        "name":{"type":"string","title":"a name","maxLength":3},
        "age":{"type":"integer","minimum":18,"maximum":99},
        "debt":{"type":"number","maximum":-2.5},
        "inner":{"properties":{"x":{"type":"number"}}}
    }}"#;
    let sc = schema(text);
    assert_eq!(sc.validate(&sc.example()), Vec::<String>::new());
}

#[test]
fn the_example_keeps_within_the_length_and_bound_keywords() {
    let sc = schema(r#"{"type":"string","maxLength":3}"#);
    assert!(is_text(&sc.example(), "str"));
    assert_eq!(sc.validate(&sc.example()), Vec::<String>::new());
    let sc = schema(r#"{"type":"string","minLength":4,"maxLength":5}"#);
    assert!(is_text(&sc.example(), "strin"));
    let sc = schema(r#"{"type":"integer","minimum":18}"#);
    assert!(is_number(&sc.example(), "18"));
    let sc = schema(r#"{"type":"number","maximum":-2.5}"#);
    assert!(is_number(&sc.example(), "-2.5"));
    let sc = schema(r#"{"type":"number","minimum":-1,"maximum":1}"#);
    assert!(is_number(&sc.example(), "0"));
    let sc = schema(r#"{"type":"array","items":{"type":"boolean"},"minItems":3}"#);
    assert!(matches!(sc.example(), Json::Array(items) if items.len() == 3));
    let sc = schema(r#"{"type":"array","items":{"type":"boolean"},"maxItems":0}"#);
    assert!(matches!(sc.example(), Json::Array(items) if items.is_empty()));
    let sc = schema(r#"{"type":"array","minItems":2}"#);
    assert!(matches!(sc.example(), Json::Array(items)
        if items.len() == 2 && items.iter().all(|i| matches!(i, Json::Null))));
}

#[test]
fn an_example_can_fail_only_where_the_keywords_cannot_all_be_met() {
    // A minimum length above the maximum leaves no string that passes.
    let sc = schema(r#"{"type":"string","minLength":5,"maxLength":3}"#);
    assert_eq!(
        sc.validate(&sc.example()),
        vec!["$: expected at least minLength 5 characters, found 3".to_string()]
    );
    // A required name that no property has is missing from the example.
    let sc = schema(r#"{"type":"object","required":["id"]}"#);
    assert_eq!(
        sc.validate(&sc.example()),
        vec![r#"$: missing required property "id""#.to_string()]
    );
}

#[test]
fn every_message_starts_with_the_path_of_the_value() {
    let text = r#"{"type":"object","properties":{"a":{"type":"array","items":{"type":"string"}}},
        "required":["b"],"additionalProperties":false}"#;
    let problems = check(text, r#"{"a":[1,"x",2],"c":null}"#);
    assert_eq!(
        problems,
        vec![
            r#"$: missing required property "b""#.to_string(),
            r#"$: unexpected property "c" (additionalProperties is false)"#.to_string(),
            "$.a[0]: expected string, found number".to_string(),
            "$.a[2]: expected string, found number".to_string(),
        ]
    );
    assert!(problems.iter().all(|p| p.starts_with('$')));
}
