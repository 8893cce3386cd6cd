//! Holding an answer to the shape the caller asked for.
//!
//! A run with a schema asks for one JSON value, checks it here, and either hands it on, asks
//! again with the problems listed, or gives up after the last attempt. Which of the three is
//! decided here from plain values; the run that asks and the stream that reports stay outside.
use vstd::prelude::*;

use crate::json::{json_read, Json};
use crate::ndjson::{result, result_line};
use crate::prompt::{first_line, first_line_spec, listed_errors, repair_prompt, repair_prompt_spec};
use crate::schema::{problems_of, render, texts, Schema};
use crate::text::{
    chars_of, copy_range, decimal, decimal_chars, extend_chars, extend_str, find_char, first_index,
    join_chars, join_with, range_eq, range_starts_with, string_of, strip_prefix, trim, trim_str,
    views,
};

verus! {

/// How many answers a run asks for before it gives up on the schema.
pub const SCHEMA_ATTEMPTS: usize = 3;

/// What precedes the suffix `p` (`str::strip_suffix`), when `s` ends with it.
pub open spec fn strip_suffix(s: Seq<char>, p: Seq<char>) -> Option<Seq<char>> {
    if p.len() <= s.len() && s.subrange(s.len() - p.len(), s.len() as int) == p {
        Some(s.subrange(0, s.len() - p.len()))
    } else {
        None
    }
}

/// The text of an answer that is read as JSON: the answer trimmed, and, where it is wrapped
/// in a code fence, what the fence holds (after the fence's first line, before a closing
/// fence), trimmed. Nothing else is repaired.
pub open spec fn fence_body(answer: Seq<char>) -> Seq<char> {
    let t = trim(answer);
    match strip_prefix(t, "```"@) {
        Some(rest) => {
            let r = match first_index(rest, '\n') {
                Some(k) => rest.subrange(k + 1, rest.len() as int),
                None => rest,
            };
            trim(
                match strip_suffix(r, "```"@) {
                    Some(x) => x,
                    None => r,
                },
            )
        },
        None => t,
    }
}

/// The text of an answer that is read as JSON.
pub fn fence_body_of(answer: &str) -> (body: String)
    ensures
        body@ == fence_body(answer@),
{
    let t = trim_str(answer);
    let tv = chars_of(t.as_str());
    let fence = chars_of("```");
    let n = tv.len();
    if !range_starts_with(&tv, 0, n, &fence) {
        assert(tv@.subrange(0, n as int) =~= tv@);
        return t;
    }
    assert(tv@.subrange(0, n as int) =~= tv@);
    let lo = fence.len();
    let ghost rest = tv@.subrange(lo as int, n as int);
    let start = match find_char(&tv, lo, n, '\n') {
        Some(k) => k + 1,
        None => lo,
    };
    let ghost r = tv@.subrange(start as int, n as int);
    assert(r =~= (match first_index(rest, '\n') {
        Some(k) => rest.subrange(k + 1, rest.len() as int),
        None => rest,
    }));
    let end = if n - start >= fence.len() && range_eq(&tv, n - fence.len(), n, &fence) {
        assert(tv@.subrange((n - fence@.len()) as int, n as int) =~= r.subrange(
            r.len() - fence@.len(),
            r.len() as int,
        ));
        assert(tv@.subrange(start as int, (n - fence@.len()) as int) =~= r.subrange(
            0,
            r.len() - fence@.len(),
        ));
        n - fence.len()
    } else {
        proof {
            if fence@.len() <= r.len() {
                assert(tv@.subrange((n - fence@.len()) as int, n as int) =~= r.subrange(
                    r.len() - fence@.len(),
                    r.len() as int,
                ));
            }
        }
        n
    };
    let inner = copy_range(&tv, start, end);
    trim_str(string_of(&inner).as_str())
}

/// The JSON value an answer holds, tolerating a code fence around it; `None` when the text is
/// not JSON.
pub fn json_in(answer: &str) -> (r: Option<Json>)
    ensures
        match r {
            Some(j) => json_read(fence_body(answer@)) == Ok::<Json, Seq<char>>(j),
            None => json_read(fence_body(answer@)) is Err,
        },
{
    let body = fence_body_of(answer);
    match Json::parse(body.as_str()) {
        Ok(j) => Some(j),
        Err(_) => None,
    }
}

/// What an answer comes to under the schema.
pub enum Verdict {
    /// It passed: the `result` line for the stream, and the text for the result file.
    Accepted { line: String, file: String },
    /// It did not, and another attempt is allowed: the problems, and the prompt that asks again.
    Retry { errors: Vec<String>, prompt: String },
    /// It did not, on the last attempt allowed: the message for the stream's `error` line.
    Refused { message: String },
}

/// The problem with an answer that is not JSON at all.
pub open spec fn not_json(answer: Seq<char>) -> Seq<char> {
    "the answer is not JSON at all, so no part of the schema could be checked: "@
        + first_line_spec(answer)
}

/// The problems of an answer: those the schema finds in its value, or the one that it is not
/// JSON.
pub open spec fn answer_problems(doc: Json, answer: Seq<char>, parsed: Option<Json>) -> Seq<
    Seq<char>,
> {
    match parsed {
        Some(v) => problems_of(doc, v, "$"@),
        None => seq![not_json(answer)],
    }
}

/// The message when the last attempt still failed.
pub open spec fn refusal(attempt: nat, errors: Seq<String>) -> Seq<char> {
    "the answer did not match the schema after "@ + decimal(attempt) + " attempts:\n"@ + join_with(
        listed_errors(errors),
        "\n"@,
    )
}

/// Judge the `attempt`-th answer (counted from 1), given the value read from it, if any. An
/// answer whose value has no problem is accepted, with the `result` line and the pretty text
/// for the result file. Otherwise it is asked for again with the problems listed, or, from the
/// last attempt allowed on, refused with them.
pub fn judge(schema: &Schema, answer: &str, parsed: Option<Json>, attempt: usize) -> (v: Verdict)
    ensures
        match v {
            Verdict::Accepted { line, file } => parsed matches Some(x) && problems_of(
                schema@,
                x,
                "$"@,
            ).len() == 0 && crate::ndjson::line_of(line@, result_line(x, attempt as nat)) && file@ == render(x)
                + "\n"@,
            Verdict::Retry { errors, prompt } => answer_problems(schema@, answer@, parsed).len() > 0
                && attempt < SCHEMA_ATTEMPTS && texts(errors@) == answer_problems(
                schema@,
                answer@,
                parsed,
            ) && prompt@ == repair_prompt_spec(answer@, errors@),
            Verdict::Refused { message } => answer_problems(schema@, answer@, parsed).len() > 0
                && attempt >= SCHEMA_ATTEMPTS && exists|errors: Seq<String>|
                texts(errors) == answer_problems(schema@, answer@, parsed) && message@ == refusal(
                    attempt as nat,
                    errors,
                ),
        },
{
    let errors: Vec<String> = match &parsed {
        Some(value) => {
            let problems = schema.validate(value);
            if problems.len() == 0 {
                let line = result(value, attempt);
                let mut file = schema_render(value);
                extend_str(&mut file, "\n");
                return Verdict::Accepted { line, file: string_of(&file) };
            }
            problems
        },
        None => {
            let mut m = chars_of(
                "the answer is not JSON at all, so no part of the schema could be checked: ",
            );
            let f = first_line(answer);
            extend_str(&mut m, f.as_str());
            let mut v: Vec<String> = Vec::new();
            v.push(string_of(&m));
            assert(texts(v@) =~= seq![not_json(answer@)]);
            v
        },
    };
    if attempt >= SCHEMA_ATTEMPTS {
        let mut items: Vec<Vec<char>> = Vec::new();
        let mut i: usize = 0;
        while i < errors.len()
            invariant
                i <= errors@.len(),
                items@.len() == i,
                forall|k: int| 0 <= k < i ==> (#[trigger] items@[k])@ == "- "@ + errors@[k]@,
            decreases errors@.len() - i,
        {
            let mut item = chars_of("- ");
            extend_str(&mut item, errors[i].as_str());
            items.push(item);
            i = i + 1;
        }
        assert(views(items@) =~= listed_errors(errors@));
        let nl = chars_of("\n");
        let listed = join_chars(&items, &nl);
        let mut m = chars_of("the answer did not match the schema after ");
        extend_chars(&mut m, &decimal_chars(attempt as u64));
        extend_str(&mut m, " attempts:\n");
        extend_chars(&mut m, &listed);
        return Verdict::Refused { message: string_of(&m) };
    }
    let prompt = repair_prompt(answer, errors.as_slice());
    Verdict::Retry { errors, prompt }
}

/// A value pretty-printed, as characters.
fn schema_render(value: &Json) -> (out: Vec<char>)
    ensures
        out@ == render(*value),
{
    match crate::json::pretty_text(value) {
        Some(t) => chars_of(t.as_str()),
        None => {
            let t = crate::json::compact_text(value);
            chars_of(t.as_str())
        },
    }
}

/// Read the `attempt`-th answer and judge it against the schema.
pub fn judge_answer(schema: &Schema, answer: &str, attempt: usize) -> (v: Verdict)
    ensures
        ({
            let parsed = match json_read(fence_body(answer@)) {
                Ok(j) => Some(j),
                Err(_) => None,
            };
            match v {
                Verdict::Accepted { line, file } => parsed matches Some(x) && problems_of(
                    schema@,
                    x,
                    "$"@,
                ).len() == 0 && crate::ndjson::line_of(line@, result_line(x, attempt as nat)) && file@ == render(x)
                    + "\n"@,
                Verdict::Retry { errors, prompt } => answer_problems(schema@, answer@, parsed).len()
                    > 0 && attempt < SCHEMA_ATTEMPTS && texts(errors@) == answer_problems(
                    schema@,
                    answer@,
                    parsed,
                ) && prompt@ == repair_prompt_spec(answer@, errors@),
                Verdict::Refused { message } => answer_problems(schema@, answer@, parsed).len()
                    > 0 && attempt >= SCHEMA_ATTEMPTS && exists|errors: Seq<String>|
                    texts(errors) == answer_problems(schema@, answer@, parsed) && message@
                        == refusal(attempt as nat, errors),
            }
        }),
{
    let parsed = json_in(answer);
    judge(schema, answer, parsed, attempt)
}

/// Where a run's schema comes from.
pub enum SchemaSource {
    /// `--schema` and `--no-schema` were both given.
    Conflict,
    /// The schema itself, written on the command line.
    Inline(String),
    /// A file that holds the schema.
    File(String),
    /// Nothing said: what the conversation was last held to, if anything.
    Inherited,
    /// `--no-schema`: no shape.
    Unshaped,
}

/// The message for `--schema` and `--no-schema` together.
pub const SCHEMA_CONFLICT: &'static str =
    "--schema and --no-schema were both given: one says what shape the answer must take and the other says there is no shape. Use one.";

/// Where the schema comes from: a `--schema` value that starts with `{` (after leading
/// whitespace) is the schema itself, any other names a file; with neither flag, the
/// conversation's own; both flags at once are a contradiction.
pub fn schema_source(schema: Option<&str>, no_schema: bool) -> (r: SchemaSource)
    ensures
        match r {
            SchemaSource::Conflict => schema is Some && no_schema,
            SchemaSource::Inline(t) => schema matches Some(s) && !no_schema && t@ == s@
                && crate::text::starts_with(crate::text::trim_start(s@), "{"@),
            SchemaSource::File(p) => schema matches Some(s) && !no_schema && p@ == s@
                && !crate::text::starts_with(crate::text::trim_start(s@), "{"@),
            SchemaSource::Inherited => schema is None && !no_schema,
            SchemaSource::Unshaped => schema is None && no_schema,
        },
{
    match schema {
        Some(value) => {
            if no_schema {
                return SchemaSource::Conflict;
            }
            let v = chars_of(value);
            let n = v.len();
            let b = crate::text::trim_start_at(&v, 0, n);
            assert(v@.subrange(0, n as int) =~= v@);
            let brace = chars_of("{");
            let owned = string_of(&v);
            if range_starts_with(&v, b, n, &brace) {
                SchemaSource::Inline(owned)
            } else {
                SchemaSource::File(owned)
            }
        },
        None => if no_schema {
            SchemaSource::Unshaped
        } else {
            SchemaSource::Inherited
        },
    }
}

} // verus!
