//! A hand-written subset of JSON Schema, checked locally before an answer is accepted.
//!
//! JSON mode only promises that a reply parses as JSON, nothing about its shape, so the shape
//! is checked here: the schema goes into the system prompt, the reply is checked against it,
//! and the messages `Schema::validate` returns are fed back to the model for a second
//! attempt. That is why every message names a JSON path: the reader is the model.
//!
//! A keyword outside the subset is refused when the schema is read, never ignored: dropping
//! `oneOf` would report "valid" for an answer the caller's schema forbids. `pattern` and
//! `format` are refused for the same reason rather than half-supported.
use vstd::prelude::*;

use crate::json::{
    compact_text, copy_json, field, json_eq, json_pretty, json_text, lemma_field_smaller,
    lemma_member_smaller, msizes_from, pretty_text, same, size, Json, JsonNumber,
};
use crate::number::{below, count_of_text, count_text, num_below, plain, plain_text};
use crate::text::{
    chars_of, copy_range, debug_quoted, debug_text, decimal, decimal_chars, eq_str, extend_chars,
    extend_str, join_chars, join_with, string_of, views,
};

verus! {

// =======================================================================================
// Reading a schema's keywords
// =======================================================================================

/// The names of the types this subset checks, as a message lists them.
pub const KNOWN_TYPES: &'static str = "object, array, string, number, integer, boolean, null";

pub const PROPERTIES_SHAPE: &'static str =
    ".properties: expected an object mapping property names to subschemas, found ";

pub const REQUIRED_SHAPE: &'static str = ".required: expected an array of property names, found ";

pub const REQUIRED_ENTRY: &'static str = ".required: every entry must be a property name, found ";

pub const BOOL_SHAPE: &'static str = ".additionalProperties: expected true or false, found ";

pub const ENUM_SHAPE: &'static str = ".enum: expected an array of allowed values, found ";

pub const ENUM_EMPTY: &'static str =
    ".enum: an empty list of values matches nothing; drop the keyword to accept any value";

pub const TYPE_SHAPE: &'static str =
    ".type: expected a type name or an array of type names, found ";

pub const TYPE_ENTRY: &'static str = ".type: every entry must be a type name, found ";

pub const TYPE_EMPTY: &'static str =
    ".type: an empty array of types accepts nothing; drop the keyword to accept any type";

pub const TYPE_UNKNOWN: &'static str = ".type: flint does not know the type ";

pub const PATTERN_HEAD: &'static str = ": flint does not validate ";

pub const PATTERN_TAIL: &'static str =
    " — a pattern or a date format it cannot enforce exactly is not a guarantee; check the answer in your own program, or drop the keyword";

pub const SUBSET_HEAD: &'static str = ": flint validates a subset of JSON Schema and ";

pub const SUBSET_TAIL: &'static str =
    " is not in it; rewrite the schema with type/properties/required/items/enum/additionalProperties and the length and bound keywords, or check the answer in your own program";

/// The text of an optional message.
pub open spec fn vo(r: Option<Vec<char>>) -> Option<Seq<char>> {
    match r {
        Some(v) => Some(v@),
        None => None,
    }
}

/// A value short enough to sit inside a message: its compact JSON text, cut after sixty
/// characters with `...` added.
pub open spec fn brief(j: Json) -> Seq<char> {
    let t = json_text(j);
    if t.len() <= 60 {
        t
    } else {
        t.take(60) + "..."@
    }
}

/// The type name reported for a value. A whole number is a `number`, so that a message for
/// an integer schema reads `expected integer, found number`.
pub open spec fn kind_of(j: Json) -> Seq<char> {
    match j {
        Json::Null => "null"@,
        Json::Bool(_) => "boolean"@,
        Json::Number(_) => "number"@,
        Json::Str(_) => "string"@,
        Json::Array(_) => "array"@,
        Json::Object(_) => "object"@,
    }
}

/// The texts of the strings among the items, in order (`filter_map(Value::as_str)`).
pub open spec fn strings_of(l: Seq<Json>) -> Seq<Seq<char>>
    decreases l.len(),
{
    if l.len() == 0 {
        Seq::empty()
    } else {
        let r = strings_of(l.drop_last());
        match l.last() {
            Json::Str(x) => r.push(x@),
            _ => r,
        }
    }
}

/// The first item from the `i`-th on that is not a string.
pub open spec fn first_non_string(l: Seq<Json>, i: int) -> Option<Json>
    decreases l.len() - i,
{
    if i < 0 || i >= l.len() {
        None
    } else if !(l[i] is Str) {
        Some(l[i])
    } else {
        first_non_string(l, i + 1)
    }
}

/// Whether the subset knows the type name.
pub open spec fn known_type(n: Seq<char>) -> bool {
    n == "object"@ || n == "array"@ || n == "string"@ || n == "number"@ || n == "integer"@ || n
        == "boolean"@ || n == "null"@
}

/// The first name from the `i`-th on that the subset does not know.
pub open spec fn first_unknown(names: Seq<Seq<char>>, i: int) -> Option<Seq<char>>
    decreases names.len() - i,
{
    if i < 0 || i >= names.len() {
        None
    } else if !known_type(names[i]) {
        Some(names[i])
    } else {
        first_unknown(names, i + 1)
    }
}

/// The count a length keyword holds: a whole number from zero up, as `u64` (a number of
/// 2^64 counts as `u64::MAX`).
pub open spec fn count_of(j: Json) -> Option<u64> {
    match j {
        Json::Number(n) => match n.unsigned {
            Some(c) => Some(c),
            None => count_of_text(n.text@),
        },
        _ => None,
    }
}

/// The message for a type name the subset does not know.
pub open spec fn unknown_type(at: Seq<char>, n: Seq<char>) -> Seq<char> {
    at + TYPE_UNKNOWN@ + debug_text(n) + "; it knows "@ + KNOWN_TYPES@
}

/// What is wrong with a `type` keyword, if anything: it must be a known type name, or a
/// non-empty array of them.
pub open spec fn type_problem(spec: Json, at: Seq<char>) -> Option<Seq<char>> {
    match spec {
        Json::Str(n) => if known_type(n@) {
            None
        } else {
            Some(unknown_type(at, n@))
        },
        Json::Array(l) => match first_non_string(l@, 0) {
            Some(bad) => Some(at + TYPE_ENTRY@ + brief(bad)),
            None => {
                let names = strings_of(l@);
                if names.len() == 0 {
                    Some(at + TYPE_EMPTY@)
                } else {
                    match first_unknown(names, 0) {
                        Some(n) => Some(unknown_type(at, n)),
                        None => None,
                    }
                }
            },
        },
        _ => Some(at + TYPE_SHAPE@ + brief(spec)),
    }
}

/// Whether a keyword is one of the annotations, which constrain nothing.
pub open spec fn is_annotation(kw: Seq<char>) -> bool {
    kw == "description"@ || kw == "title"@ || kw == "default"@ || kw == "examples"@ || kw
        == "$schema"@ || kw == "$comment"@
}

/// What is wrong with one keyword of a subschema at `at`, if anything, apart from the
/// subschemas it holds (those of an object `properties`, and `items`).
pub open spec fn keyword_problem(kw: Seq<char>, spec: Json, at: Seq<char>) -> Option<Seq<char>> {
    if kw == "type"@ {
        type_problem(spec, at)
    } else if kw == "properties"@ {
        if spec is Object {
            None
        } else {
            Some(at + PROPERTIES_SHAPE@ + brief(spec))
        }
    } else if kw == "required"@ {
        match spec {
            Json::Array(l) => match first_non_string(l@, 0) {
                Some(bad) => Some(at + REQUIRED_ENTRY@ + brief(bad)),
                None => None,
            },
            _ => Some(at + REQUIRED_SHAPE@ + brief(spec)),
        }
    } else if kw == "additionalProperties"@ {
        if spec is Bool {
            None
        } else {
            Some(at + BOOL_SHAPE@ + brief(spec))
        }
    } else if kw == "items"@ {
        None
    } else if kw == "enum"@ {
        match spec {
            Json::Array(l) => if l@.len() == 0 {
                Some(at + ENUM_EMPTY@)
            } else {
                None
            },
            _ => Some(at + ENUM_SHAPE@ + brief(spec)),
        }
    } else if kw == "minimum"@ || kw == "maximum"@ {
        if spec is Number {
            None
        } else {
            Some(at + "."@ + kw + ": expected a number, found "@ + brief(spec))
        }
    } else if kw == "minLength"@ || kw == "maxLength"@ || kw == "minItems"@ || kw
        == "maxItems"@ {
        if count_of(spec) is Some {
            None
        } else {
            Some(at + "."@ + kw + ": expected a whole number, found "@ + brief(spec))
        }
    } else if is_annotation(kw) {
        None
    } else if kw == "pattern"@ || kw == "format"@ {
        Some(at + PATTERN_HEAD@ + debug_text(kw) + PATTERN_TAIL@)
    } else {
        Some(at + SUBSET_HEAD@ + debug_text(kw) + SUBSET_TAIL@)
    }
}

/// The first refusal met in checking a subschema at the path `at`: keywords in the order they
/// are written, each subschema where it stands. `None` when the subschema is accepted.
pub open spec fn check_spec(node: Json, at: Seq<char>) -> Option<Seq<char>>
    decreases size(node), 0int,
{
    match node {
        Json::Object(rules) => check_rules(rules@, 0, at),
        _ => Some(at + ": a subschema must be a JSON object, found "@ + brief(node)),
    }
}

/// The first refusal among the keywords from the `i`-th on.
pub open spec fn check_rules(rules: Seq<(String, Json)>, i: int, at: Seq<char>) -> Option<
    Seq<char>,
>
    decreases msizes_from(rules, i), 1int,
{
    if 0 <= i < rules.len() {
        let kw = rules[i].0@;
        let spec = rules[i].1;
        let here = if kw == "properties"@ && spec is Object {
            check_props(spec->Object_0@, 0, at)
        } else if kw == "items"@ {
            check_spec(spec, at + ".items"@)
        } else {
            keyword_problem(kw, spec, at)
        };
        if here is Some {
            here
        } else {
            check_rules(rules, i + 1, at)
        }
    } else {
        None
    }
}

/// The first refusal among the subschemas of `properties` from the `k`-th on.
pub open spec fn check_props(pm: Seq<(String, Json)>, k: int, at: Seq<char>) -> Option<
    Seq<char>,
>
    decreases msizes_from(pm, k), 1int,
{
    if 0 <= k < pm.len() {
        let here = check_spec(pm[k].1, at + ".properties."@ + pm[k].0@);
        if here is Some {
            here
        } else {
            check_props(pm, k + 1, at)
        }
    } else {
        None
    }
}

// =======================================================================================
// The same, computed
// =======================================================================================

/// A value short enough to sit inside a message.
pub fn brief_chars(j: &Json) -> (out: Vec<char>)
    ensures
        out@ == brief(*j),
{
    let s = compact_text(j);
    let t = chars_of(s.as_str());
    if t.len() <= 60 {
        t
    } else {
        let mut out = copy_range(&t, 0, 60);
        extend_str(&mut out, "...");
        assert(t@.subrange(0, 60) =~= t@.take(60));
        out
    }
}

/// The type name reported for a value.
pub fn kind_name(j: &Json) -> (r: &'static str)
    ensures
        r@ == kind_of(*j),
{
    match j {
        Json::Null => "null",
        Json::Bool(_) => "boolean",
        Json::Number(_) => "number",
        Json::Str(_) => "string",
        Json::Array(_) => "array",
        Json::Object(_) => "object",
    }
}

/// The texts of the strings among the items, in order.
pub fn strings_in(l: &Vec<Json>) -> (out: Vec<Vec<char>>)
    ensures
        views(out@) == strings_of(l@),
{
    let mut out: Vec<Vec<char>> = Vec::new();
    let mut i: usize = 0;
    while i < l.len()
        invariant
            i <= l@.len(),
            views(out@) == strings_of(l@.take(i as int)),
        decreases l@.len() - i,
    {
        proof {
            assert(l@.take(i + 1).drop_last() =~= l@.take(i as int));
            assert(l@.take(i + 1).last() == l@[i as int]);
        }
        let ghost before = out@;
        match &l[i] {
            Json::Str(x) => {
                out.push(chars_of(x.as_str()));
                assert(views(out@) =~= views(before).push(x@));
            },
            _ => {},
        }
        i = i + 1;
    }
    assert(l@.take(l@.len() as int) =~= l@);
    out
}

/// The first item that is not a string.
pub fn first_non_string_in(l: &Vec<Json>) -> (r: Option<&Json>)
    ensures
        match r {
            Some(x) => first_non_string(l@, 0) == Some(*x),
            None => first_non_string(l@, 0) is None,
        },
{
    let mut i: usize = 0;
    while i < l.len()
        invariant
            i <= l@.len(),
            first_non_string(l@, 0) == first_non_string(l@, i as int),
        decreases l@.len() - i,
    {
        match &l[i] {
            Json::Str(_) => {},
            _ => {
                return Some(&l[i]);
            },
        }
        i = i + 1;
    }
    None
}

/// Whether the subset knows the type name.
pub fn is_known(n: &Vec<char>) -> (b: bool)
    ensures
        b == known_type(n@),
{
    eq_str(n, "object") || eq_str(n, "array") || eq_str(n, "string") || eq_str(n, "number")
        || eq_str(n, "integer") || eq_str(n, "boolean") || eq_str(n, "null")
}

/// The count a length keyword holds.
pub fn count_in(j: &Json) -> (r: Option<u64>)
    ensures
        r == count_of(*j),
{
    match j {
        Json::Number(n) => match n.unsigned {
            Some(c) => Some(c),
            None => {
                let t = chars_of(n.text.as_str());
                count_text(&t)
            },
        },
        _ => None,
    }
}

/// `at` followed by a piece of text.
fn joined(at: &Vec<char>, tail: &str) -> (out: Vec<char>)
    ensures
        out@ == at@ + tail@,
{
    let mut out: Vec<char> = Vec::new();
    extend_chars(&mut out, at);
    extend_str(&mut out, tail);
    out
}

/// `at`, a piece of text, and the brief form of a value.
fn found(at: &Vec<char>, what: &str, j: &Json) -> (out: Vec<char>)
    ensures
        out@ == at@ + what@ + brief(*j),
{
    let mut out = joined(at, what);
    let b = brief_chars(j);
    extend_chars(&mut out, &b);
    out
}

/// The message for a type name the subset does not know.
fn unknown_type_message(at: &Vec<char>, n: &Vec<char>) -> (out: Vec<char>)
    ensures
        out@ == unknown_type(at@, n@),
{
    let mut out = joined(at, TYPE_UNKNOWN);
    let q = debug_quoted(string_of(n).as_str());
    extend_str(&mut out, q.as_str());
    extend_str(&mut out, "; it knows ");
    extend_str(&mut out, KNOWN_TYPES);
    out
}

/// What is wrong with a `type` keyword, if anything.
pub fn type_problem_in(spec: &Json, at: &Vec<char>) -> (r: Option<Vec<char>>)
    ensures
        vo(r) == type_problem(*spec, at@),
{
    match spec {
        Json::Str(n) => {
            let name = chars_of(n.as_str());
            if is_known(&name) {
                None
            } else {
                Some(unknown_type_message(at, &name))
            }
        },
        Json::Array(l) => match first_non_string_in(l) {
            Some(bad) => Some(found(at, TYPE_ENTRY, bad)),
            None => {
                let names = strings_in(l);
                if names.len() == 0 {
                    return Some(joined(at, TYPE_EMPTY));
                }
                let mut i: usize = 0;
                while i < names.len()
                    invariant
                        i <= names@.len(),
                        views(names@) == strings_of(l@),
                        type_problem(*spec, at@) == (match first_unknown(strings_of(l@), 0) {
                            Some(n) => Some(unknown_type(at@, n)),
                            None => None,
                        }),
                        first_unknown(strings_of(l@), 0) == first_unknown(
                            strings_of(l@),
                            i as int,
                        ),
                    decreases names@.len() - i,
                {
                    assert(names@[i as int]@ == views(names@)[i as int]);
                    if !is_known(&names[i]) {
                        return Some(unknown_type_message(at, &names[i]));
                    }
                    i = i + 1;
                }
                None
            },
        },
        _ => Some(found(at, TYPE_SHAPE, spec)),
    }
}

/// `at`, `.`, the keyword, and a complaint about the value.
fn keyword_found(at: &Vec<char>, kw: &Vec<char>, what: &str, j: &Json) -> (out: Vec<char>)
    ensures
        out@ == at@ + "."@ + kw@ + what@ + brief(*j),
{
    let mut out = joined(at, ".");
    extend_chars(&mut out, kw);
    extend_str(&mut out, what);
    let b = brief_chars(j);
    extend_chars(&mut out, &b);
    out
}

/// `at`, a head, the keyword as `Debug` quotes it, and a tail.
fn keyword_refused(at: &Vec<char>, head: &str, kw: &Vec<char>, tail: &str) -> (out: Vec<char>)
    ensures
        out@ == at@ + head@ + debug_text(kw@) + tail@,
{
    let mut out = joined(at, head);
    let q = debug_quoted(string_of(kw).as_str());
    extend_str(&mut out, q.as_str());
    extend_str(&mut out, tail);
    out
}

/// What is wrong with one keyword of a subschema, apart from the subschemas it holds.
pub fn keyword_problem_in(kw: &Vec<char>, spec: &Json, at: &Vec<char>) -> (r: Option<Vec<char>>)
    ensures
        vo(r) == keyword_problem(kw@, *spec, at@),
{
    if eq_str(kw, "type") {
        type_problem_in(spec, at)
    } else if eq_str(kw, "properties") {
        match spec {
            Json::Object(_) => None,
            _ => Some(found(at, PROPERTIES_SHAPE, spec)),
        }
    } else if eq_str(kw, "required") {
        match spec {
            Json::Array(l) => match first_non_string_in(l) {
                Some(bad) => Some(found(at, REQUIRED_ENTRY, bad)),
                None => None,
            },
            _ => Some(found(at, REQUIRED_SHAPE, spec)),
        }
    } else if eq_str(kw, "additionalProperties") {
        match spec {
            Json::Bool(_) => None,
            _ => Some(found(at, BOOL_SHAPE, spec)),
        }
    } else if eq_str(kw, "items") {
        None
    } else if eq_str(kw, "enum") {
        match spec {
            Json::Array(l) => if l.len() == 0 {
                Some(joined(at, ENUM_EMPTY))
            } else {
                None
            },
            _ => Some(found(at, ENUM_SHAPE, spec)),
        }
    } else if eq_str(kw, "minimum") || eq_str(kw, "maximum") {
        match spec {
            Json::Number(_) => None,
            _ => Some(keyword_found(at, kw, ": expected a number, found ", spec)),
        }
    } else if eq_str(kw, "minLength") || eq_str(kw, "maxLength") || eq_str(kw, "minItems")
        || eq_str(kw, "maxItems") {
        if count_in(spec).is_some() {
            None
        } else {
            Some(keyword_found(at, kw, ": expected a whole number, found ", spec))
        }
    } else if eq_str(kw, "description") || eq_str(kw, "title") || eq_str(kw, "default")
        || eq_str(kw, "examples") || eq_str(kw, "$schema") || eq_str(kw, "$comment") {
        None
    } else if eq_str(kw, "pattern") || eq_str(kw, "format") {
        Some(keyword_refused(at, PATTERN_HEAD, kw, PATTERN_TAIL))
    } else {
        Some(keyword_refused(at, SUBSET_HEAD, kw, SUBSET_TAIL))
    }
}

/// Check a subschema at the path `at`: the first refusal, or `None` when it is accepted.
pub fn check_schema(node: &Json, at: &Vec<char>) -> (r: Option<Vec<char>>)
    ensures
        vo(r) == check_spec(*node, at@),
    decreases size(*node), 0int,
{
    match node {
        Json::Object(rules) => {
            let mut i: usize = 0;
            while i < rules.len()
                invariant
                    i <= rules@.len(),
                    *node == Json::Object(*rules),
                    check_spec(*node, at@) == check_rules(rules@, 0, at@),
                    check_rules(rules@, 0, at@) == check_rules(rules@, i as int, at@),
                decreases rules@.len() - i,
            {
                let kw = chars_of(rules[i].0.as_str());
                let spec = &rules[i].1;
                proof {
                    assert(*spec == rules@[i as int].1);
                    assert(kw@ == rules@[i as int].0@);
                    lemma_member_smaller(rules@, 0, i as int);
                }
                let here = if eq_str(&kw, "properties") && spec.is_object() {
                    match spec {
                        Json::Object(pm) => {
                            proof {
                                assert(size(*spec) == 1 + msizes_from(pm@, 0));
                            }
                            check_props_in(pm, at)
                        },
                        _ => None,
                    }
                } else if eq_str(&kw, "items") {
                    let p = joined(at, ".items");
                    check_schema(spec, &p)
                } else {
                    keyword_problem_in(&kw, spec, at)
                };
                if here.is_some() {
                    return here;
                }
                i = i + 1;
            }
            None
        },
        _ => Some(found(at, ": a subschema must be a JSON object, found ", node)),
    }
}

/// Check the subschemas of `properties`: the first refusal, or `None`.
fn check_props_in(pm: &Vec<(String, Json)>, at: &Vec<char>) -> (r: Option<Vec<char>>)
    ensures
        vo(r) == check_props(pm@, 0, at@),
    decreases msizes_from(pm@, 0), 1int,
{
    let mut k: usize = 0;
    while k < pm.len()
        invariant
            k <= pm@.len(),
            check_props(pm@, 0, at@) == check_props(pm@, k as int, at@),
        decreases pm@.len() - k,
    {
        let mut p = joined(at, ".properties.");
        let name = chars_of(pm[k].0.as_str());
        extend_chars(&mut p, &name);
        proof {
            assert(name@ == pm@[k as int].0@);
            lemma_member_smaller(pm@, 0, k as int);
        }
        let here = check_schema(&pm[k].1, &p);
        if here.is_some() {
            return here;
        }
        k = k + 1;
    }
    None
}

// =======================================================================================
// Checking an instance
// =======================================================================================

/// The texts of a list of messages.
pub open spec fn texts(ps: Seq<String>) -> Seq<Seq<char>> {
    ps.map_values(|p: String| p@)
}

/// Whether some item equals the value.
pub open spec fn any_same(l: Seq<Json>, v: Json) -> bool {
    exists|i: int| 0 <= i < l.len() && #[trigger] same(l[i], v)
}

/// The allowed values as a message lists them: the first ten in brief, then `...` when
/// there are more.
pub open spec fn allowed_list(l: Seq<Json>) -> Seq<char> {
    let shown = if l.len() > 10 {
        10
    } else {
        l.len()
    };
    join_with(Seq::new(shown as nat, |i: int| brief(l[i])), ", "@) + (if l.len() > 10 {
        ", ..."@
    } else {
        Seq::empty()
    })
}

/// The type names a subschema's `type` keyword holds; none when it has none.
pub open spec fn type_names(s: Json) -> Seq<Seq<char>> {
    match field(s, "type"@) {
        Some(Json::Str(n)) => seq![n@],
        Some(Json::Array(l)) => strings_of(l@),
        _ => Seq::empty(),
    }
}

/// Whether a value is of the named type. A whole number written with a fraction, `3.0`, is
/// an integer.
pub open spec fn type_matches(name: Seq<char>, v: Json) -> bool {
    if name == "object"@ {
        v is Object
    } else if name == "array"@ {
        v is Array
    } else if name == "string"@ {
        v is Str
    } else if name == "number"@ {
        v is Number
    } else if name == "integer"@ {
        match v {
            Json::Number(n) => n.signed is Some || n.unsigned is Some
                || crate::number::is_whole(n.text@),
            _ => false,
        }
    } else if name == "boolean"@ {
        v is Bool
    } else if name == "null"@ {
        v is Null
    } else {
        false
    }
}

/// How a union of types reads in a sentence: `string`, `string or null`, `a, b or null`.
pub open spec fn join_or(names: Seq<Seq<char>>) -> Seq<char> {
    if names.len() == 0 {
        "any type"@
    } else if names.len() == 1 {
        names[0]
    } else {
        join_with(names.drop_last(), ", "@) + " or "@ + names.last()
    }
}

/// The refusal of a value outside `enum`.
pub open spec fn enum_problem(s: Json, v: Json, path: Seq<char>) -> Option<Seq<char>> {
    match field(s, "enum"@) {
        Some(Json::Array(l)) => if any_same(l@, v) {
            None
        } else {
            Some(
                path + ": "@ + brief(v) + " is not one of the allowed values ("@ + allowed_list(l@)
                    + ")"@,
            )
        },
        _ => None,
    }
}

/// The refusal of a value of none of the types `type` names.
pub open spec fn type_problem_at(s: Json, v: Json, path: Seq<char>) -> Option<Seq<char>> {
    let names = type_names(s);
    if names.len() > 0 && !(exists|i: int|
        0 <= i < names.len() && #[trigger] type_matches(names[i], v)) {
        Some(path + ": expected "@ + join_or(names) + ", found "@ + kind_of(v))
    } else {
        None
    }
}

/// The count under a length keyword of a subschema.
pub open spec fn count_field(s: Json, key: Seq<char>) -> Option<u64> {
    match field(s, key) {
        Some(j) => count_of(j),
        None => None,
    }
}

/// The required names from the `i`-th on that the object lacks.
pub open spec fn missing_from(names: Seq<Seq<char>>, i: int, v: Json, path: Seq<char>) -> Seq<
    Seq<char>,
>
    decreases names.len() - i,
{
    if 0 <= i < names.len() {
        (if field(v, names[i]) is None {
            seq![path + ": missing required property "@ + debug_text(names[i])]
        } else {
            Seq::empty()
        }) + missing_from(names, i + 1, v, path)
    } else {
        Seq::empty()
    }
}

/// The members of the subschema's `properties`, when it is an object.
pub open spec fn props_of(s: Json) -> Option<Seq<(String, Json)>> {
    match field(s, "properties"@) {
        Some(Json::Object(pm)) => Some(pm@),
        _ => None,
    }
}

/// The members from the `i`-th on that `properties` does not name.
pub open spec fn unexpected_from(
    fm: Seq<(String, Json)>,
    i: int,
    props: Option<Seq<(String, Json)>>,
    path: Seq<char>,
) -> Seq<Seq<char>>
    decreases fm.len() - i,
{
    if 0 <= i < fm.len() {
        (if !(props matches Some(pm) && crate::json::member(pm, fm[i].0@, 0) is Some) {
            seq![
                path + ": unexpected property "@ + debug_text(fm[i].0@)
                    + " (additionalProperties is false)"@,
            ]
        } else {
            Seq::empty()
        }) + unexpected_from(fm, i + 1, props, path)
    } else {
        Seq::empty()
    }
}

/// The problems of an object with `required` and `additionalProperties`.
pub open spec fn member_problems(s: Json, fm: Seq<(String, Json)>, v: Json, path: Seq<char>) -> Seq<
    Seq<char>,
> {
    (match field(s, "required"@) {
        Some(Json::Array(l)) => missing_from(strings_of(l@), 0, v, path),
        _ => Seq::empty(),
    }) + (if field(s, "additionalProperties"@) == Some(Json::Bool(false)) {
        unexpected_from(fm, 0, props_of(s), path)
    } else {
        Seq::empty()
    })
}

/// The problems of a count against a `min…` and a `max…` keyword.
pub open spec fn count_problems(
    s: Json,
    count: nat,
    path: Seq<char>,
    min_key: Seq<char>,
    max_key: Seq<char>,
    unit: Seq<char>,
) -> Seq<Seq<char>> {
    (match count_field(s, min_key) {
        Some(min) => if count < min {
            seq![
                path + ": expected at least "@ + min_key + " "@ + decimal(min as nat) + unit
                    + ", found "@ + decimal(count),
            ]
        } else {
            Seq::empty()
        },
        None => Seq::empty(),
    }) + (match count_field(s, max_key) {
        Some(max) => if count > max {
            seq![
                path + ": expected at most "@ + max_key + " "@ + decimal(max as nat) + unit
                    + ", found "@ + decimal(count),
            ]
        } else {
            Seq::empty()
        },
        None => Seq::empty(),
    })
}

/// The problems of a number against `minimum` and `maximum`, compared exactly.
pub open spec fn bound_problems(s: Json, t: Seq<char>, path: Seq<char>) -> Seq<Seq<char>> {
    (match field(s, "minimum"@) {
        Some(Json::Number(b)) => if num_below(t, b.text@) {
            seq![path + ": "@ + t + " is less than the minimum "@ + plain(b.text@)]
        } else {
            Seq::empty()
        },
        _ => Seq::empty(),
    }) + (match field(s, "maximum"@) {
        Some(Json::Number(b)) => if num_below(b.text@, t) {
            seq![path + ": "@ + t + " is greater than the maximum "@ + plain(b.text@)]
        } else {
            Seq::empty()
        },
        _ => Seq::empty(),
    })
}

/// The problems of a value against a subschema, each naming a JSON path, in the order they
/// are found. A value outside `enum` has that one problem; so has a value of the wrong type;
/// otherwise the keywords of its kind are checked, and the subschemas of its members or items.
pub open spec fn problems_of(s: Json, v: Json, path: Seq<char>) -> Seq<Seq<char>>
    decreases size(s), 0int,
{
    if s is Object {
        match enum_problem(s, v, path) {
            Some(m) => seq![m],
            None => match type_problem_at(s, v, path) {
                Some(m) => seq![m],
                None => match v {
                    Json::Object(fm) => member_problems(s, fm@, v, path) + match field(
                        s,
                        "properties"@,
                    ) {
                        Some(p) => match p {
                            Json::Object(pm) => {
                                proof {
                                    lemma_field_smaller(s, "properties"@);
                                    assert(size(p) == 1 + msizes_from(pm@, 0));
                                }
                                props_problems(pm@, 0, v, path)
                            },
                            _ => Seq::empty(),
                        },
                        None => Seq::empty(),
                    },
                    Json::Array(el) => count_problems(
                        s,
                        el@.len(),
                        path,
                        "minItems"@,
                        "maxItems"@,
                        ""@,
                    ) + match field(s, "items"@) {
                        Some(sub) => {
                            proof {
                                lemma_field_smaller(s, "items"@);
                            }
                            elems_problems(sub, el@, 0, path)
                        },
                        None => Seq::empty(),
                    },
                    Json::Str(t) => count_problems(
                        s,
                        t@.len(),
                        path,
                        "minLength"@,
                        "maxLength"@,
                        " characters"@,
                    ),
                    Json::Number(n) => bound_problems(s, n.text@, path),
                    _ => Seq::empty(),
                },
            },
        }
    } else {
        Seq::empty()
    }
}

/// The problems of the members that `properties` names, from its `k`-th subschema on.
pub open spec fn props_problems(pm: Seq<(String, Json)>, k: int, v: Json, path: Seq<char>) -> Seq<
    Seq<char>,
>
    decreases msizes_from(pm, k), 1int,
{
    if 0 <= k < pm.len() {
        (match field(v, pm[k].0@) {
            Some(f) => problems_of(pm[k].1, f, path + "."@ + pm[k].0@),
            None => Seq::empty(),
        }) + props_problems(pm, k + 1, v, path)
    } else {
        Seq::empty()
    }
}

/// The problems of the items from the `i`-th on against the `items` subschema.
pub open spec fn elems_problems(sub: Json, el: Seq<Json>, i: int, path: Seq<char>) -> Seq<
    Seq<char>,
>
    decreases size(sub), el.len() - i + 1,
{
    if 0 <= i < el.len() {
        problems_of(sub, el[i], path + "["@ + decimal(i as nat) + "]"@) + elems_problems(
            sub,
            el,
            i + 1,
            path,
        )
    } else {
        Seq::empty()
    }
}

// =======================================================================================
// Checking an instance, computed
// =======================================================================================

/// Append a message to the list.
fn push_message(problems: &mut Vec<String>, m: &Vec<char>)
    ensures
        texts(final(problems)@) == texts(old(problems)@).push(m@),
{
    problems.push(string_of(m));
    assert(texts(problems@) =~= texts(old(problems)@).push(m@));
}

/// The allowed values as a message lists them.
pub fn allowed_list_in(l: &Vec<Json>) -> (out: Vec<char>)
    ensures
        out@ == allowed_list(l@),
{
    let shown: usize = if l.len() > 10 {
        10
    } else {
        l.len()
    };
    let mut parts: Vec<Vec<char>> = Vec::new();
    let mut i: usize = 0;
    while i < shown
        invariant
            i <= shown <= l@.len(),
            shown == if l@.len() > 10 {
                10
            } else {
                l@.len()
            },
            parts@.len() == i,
            forall|k: int| 0 <= k < i ==> (#[trigger] parts@[k])@ == brief(l@[k]),
        decreases shown - i,
    {
        let b = brief_chars(&l[i]);
        parts.push(b);
        i = i + 1;
    }
    assert(views(parts@) =~= Seq::new(shown as nat, |k: int| brief(l@[k])));
    let sep = chars_of(", ");
    let mut out = join_chars(&parts, &sep);
    if l.len() > 10 {
        extend_str(&mut out, ", ...");
    } else {
        assert(out@ + Seq::<char>::empty() =~= out@);
    }
    out
}

/// The type names a subschema's `type` keyword holds.
pub fn type_names_in(s: &Json) -> (out: Vec<Vec<char>>)
    ensures
        views(out@) == type_names(*s),
{
    match s.get("type") {
        Some(t) => match t {
            Json::Str(n) => {
                let mut out: Vec<Vec<char>> = Vec::new();
                out.push(chars_of(n.as_str()));
                assert(views(out@) =~= seq![n@]);
                out
            },
            Json::Array(l) => strings_in(l),
            _ => {
                let out: Vec<Vec<char>> = Vec::new();
                assert(views(out@) =~= Seq::<Seq<char>>::empty());
                out
            },
        },
        None => {
            let out: Vec<Vec<char>> = Vec::new();
            assert(views(out@) =~= Seq::<Seq<char>>::empty());
            out
        },
    }
}

/// Whether a value is of the named type.
pub fn type_matches_in(name: &Vec<char>, v: &Json) -> (b: bool)
    ensures
        b == type_matches(name@, *v),
{
    if eq_str(name, "object") {
        matches!(v, Json::Object(_))
    } else if eq_str(name, "array") {
        matches!(v, Json::Array(_))
    } else if eq_str(name, "string") {
        matches!(v, Json::Str(_))
    } else if eq_str(name, "number") {
        matches!(v, Json::Number(_))
    } else if eq_str(name, "integer") {
        match v {
            Json::Number(n) => {
                if n.signed.is_some() || n.unsigned.is_some() {
                    true
                } else {
                    let t = chars_of(n.text.as_str());
                    crate::number::whole(&t)
                }
            },
            _ => false,
        }
    } else if eq_str(name, "boolean") {
        matches!(v, Json::Bool(_))
    } else if eq_str(name, "null") {
        matches!(v, Json::Null)
    } else {
        false
    }
}

/// How a union of types reads in a sentence.
pub fn join_or_in(names: &Vec<Vec<char>>) -> (out: Vec<char>)
    ensures
        out@ == join_or(views(names@)),
{
    let n = names.len();
    if n == 0 {
        chars_of("any type")
    } else if n == 1 {
        copy_range(&names[0], 0, names[0].len())
    } else {
        let mut rest: Vec<Vec<char>> = Vec::new();
        let mut i: usize = 0;
        while i < n - 1
            invariant
                i <= n - 1,
                n == names@.len(),
                rest@.len() == i,
                forall|k: int| 0 <= k < i ==> (#[trigger] rest@[k])@ == names@[k]@,
            decreases n - 1 - i,
        {
            let c = copy_range(&names[i], 0, names[i].len());
            let ghost w = names@[i as int]@;
            assert(w.subrange(0, w.len() as int) =~= w);
            rest.push(c);
            i = i + 1;
        }
        assert(views(rest@) =~= views(names@).subrange(0, n - 1));
        assert(views(names@).drop_last() =~= views(names@).subrange(0, n - 1));
        let sep = chars_of(", ");
        let mut out = join_chars(&rest, &sep);
        extend_str(&mut out, " or ");
        extend_chars(&mut out, &names[n - 1]);
        out
    }
}

/// The refusal of a value outside `enum`.
pub fn enum_problem_in(s: &Json, v: &Json, path: &Vec<char>) -> (r: Option<Vec<char>>)
    ensures
        vo(r) == enum_problem(*s, *v, path@),
{
    match s.get("enum") {
        Some(e) => match e {
            Json::Array(l) => {
                let mut i: usize = 0;
                while i < l.len()
                    invariant
                        i <= l@.len(),
                        field(*s, "enum"@) == Some(*e),
                        *e == Json::Array(*l),
                        forall|j: int| 0 <= j < i ==> !#[trigger] same(l@[j], *v),
                    decreases l@.len() - i,
                {
                    if json_eq(&l[i], v) {
                        assert(same(l@[i as int], *v));
                        assert(any_same(l@, *v));
                        return None;
                    }
                    i = i + 1;
                }
                let mut m = joined(path, ": ");
                let b = brief_chars(v);
                extend_chars(&mut m, &b);
                extend_str(&mut m, " is not one of the allowed values (");
                let a = allowed_list_in(l);
                extend_chars(&mut m, &a);
                extend_str(&mut m, ")");
                Some(m)
            },
            _ => None,
        },
        None => None,
    }
}

/// The refusal of a value of none of the types `type` names.
pub fn type_problem_at_in(s: &Json, v: &Json, path: &Vec<char>) -> (r: Option<Vec<char>>)
    ensures
        vo(r) == type_problem_at(*s, *v, path@),
{
    let names = type_names_in(s);
    if names.len() == 0 {
        return None;
    }
    let mut i: usize = 0;
    while i < names.len()
        invariant
            i <= names@.len(),
            views(names@) == type_names(*s),
            forall|j: int| 0 <= j < i ==> !#[trigger] type_matches(views(names@)[j], *v),
        decreases names@.len() - i,
    {
        if type_matches_in(&names[i], v) {
            assert(names@[i as int]@ == views(names@)[i as int]);
            assert(type_matches(views(names@)[i as int], *v));
            return None;
        }
        i = i + 1;
    }
    let mut m = joined(path, ": expected ");
    let j = join_or_in(&names);
    extend_chars(&mut m, &j);
    extend_str(&mut m, ", found ");
    extend_str(&mut m, kind_name(v));
    Some(m)
}

/// Append the problems of an object with `required` and `additionalProperties`.
fn member_problems_in(
    s: &Json,
    fm: &Vec<(String, Json)>,
    v: &Json,
    path: &Vec<char>,
    problems: &mut Vec<String>,
)
    requires
        *v == Json::Object(*fm),
    ensures
        texts(final(problems)@) == texts(old(problems)@) + member_problems(*s, fm@, *v, path@),
{
    let ghost start = texts(problems@);
    let ghost req = match field(*s, "required"@) {
        Some(Json::Array(l)) => missing_from(strings_of(l@), 0, *v, path@),
        _ => Seq::empty(),
    };
    match s.get("required") {
        Some(r) => match r {
            Json::Array(l) => {
                let names = strings_in(l);
                let mut i: usize = 0;
                while i < names.len()
                    invariant
                        i <= names@.len(),
                        views(names@) == strings_of(l@),
                        start + missing_from(views(names@), 0, *v, path@) == texts(problems@)
                            + missing_from(views(names@), i as int, *v, path@),
                    decreases names@.len() - i,
                {
                    let name = string_of(&names[i]);
                    assert(name@ == views(names@)[i as int]);
                    let ghost before = texts(problems@);
                    if v.get(name.as_str()).is_none() {
                        let mut m = joined(path, ": missing required property ");
                        let q = debug_quoted(name.as_str());
                        extend_str(&mut m, q.as_str());
                        push_message(problems, &m);
                    }
                    proof {
                        let names_v = views(names@);
                        let here = if field(*v, names_v[i as int]) is None {
                            seq![
                                path@ + ": missing required property "@ + debug_text(
                                    names_v[i as int],
                                ),
                            ]
                        } else {
                            Seq::empty()
                        };
                        assert(missing_from(names_v, i as int, *v, path@) =~= here
                            + missing_from(names_v, i + 1, *v, path@));
                        assert(texts(problems@) =~= before + here);
                        assert(before + (here + missing_from(names_v, i + 1, *v, path@))
                            =~= (before + here) + missing_from(names_v, i + 1, *v, path@));
                    }
                    i = i + 1;
                }
                assert(missing_from(views(names@), i as int, *v, path@) =~= Seq::<
                    Seq<char>,
                >::empty());
                assert(texts(problems@) =~= start + req);
            },
            _ => {
                assert(texts(problems@) =~= start + req);
            },
        },
        None => {
            assert(texts(problems@) =~= start + req);
        },
    }
    let ghost mid = texts(problems@);
    let closed = match s.get("additionalProperties") {
        Some(a) => match a {
            Json::Bool(b) => !*b,
            _ => false,
        },
        None => false,
    };
    if closed {
        let props: Option<&Json> = match s.get("properties") {
            Some(p) => if p.is_object() {
                Some(p)
            } else {
                None
            },
            None => None,
        };
        let mut i: usize = 0;
        while i < fm.len()
            invariant
                i <= fm@.len(),
                match props {
                    Some(p) => p is Object && props_of(*s) == Some(p->Object_0@),
                    None => props_of(*s) is None,
                },
                mid + unexpected_from(fm@, 0, props_of(*s), path@) == texts(problems@)
                    + unexpected_from(fm@, i as int, props_of(*s), path@),
            decreases fm@.len() - i,
        {
            let name = &fm[i].0;
            assert(name@ == fm@[i as int].0@);
            let named = match props {
                Some(p) => p.get(name.as_str()).is_some(),
                None => false,
            };
            let ghost before = texts(problems@);
            if !named {
                let mut m = joined(path, ": unexpected property ");
                let q = debug_quoted(name.as_str());
                extend_str(&mut m, q.as_str());
                extend_str(&mut m, " (additionalProperties is false)");
                push_message(problems, &m);
            }
            proof {
                let here = if !(props_of(*s) matches Some(pm) && crate::json::member(
                    pm,
                    fm@[i as int].0@,
                    0,
                ) is Some) {
                    seq![
                        path@ + ": unexpected property "@ + debug_text(fm@[i as int].0@)
                            + " (additionalProperties is false)"@,
                    ]
                } else {
                    Seq::empty()
                };
                assert(unexpected_from(fm@, i as int, props_of(*s), path@) =~= here
                    + unexpected_from(fm@, i + 1, props_of(*s), path@));
                assert(texts(problems@) =~= before + here);
                assert(before + (here + unexpected_from(fm@, i + 1, props_of(*s), path@))
                    =~= (before + here) + unexpected_from(fm@, i + 1, props_of(*s), path@));
            }
            i = i + 1;
        }
        assert(unexpected_from(fm@, i as int, props_of(*s), path@) =~= Seq::<
            Seq<char>,
        >::empty());
        assert(texts(problems@) =~= mid + unexpected_from(fm@, 0, props_of(*s), path@));
    } else {
        assert(texts(problems@) =~= mid + Seq::<Seq<char>>::empty());
    }
    assert(field(*s, "additionalProperties"@) == Some(Json::Bool(false)) <==> closed);
    assert(start + req + (texts(problems@).skip(mid.len() as int)) =~= texts(problems@));
}

/// The count under a length keyword of a subschema.
fn count_field_in(s: &Json, key: &str) -> (r: Option<u64>)
    ensures
        r == count_field(*s, key@),
{
    match s.get(key) {
        Some(j) => count_in(j),
        None => None,
    }
}

/// Append the problems of a count against a `min…` and a `max…` keyword.
fn count_problems_in(
    s: &Json,
    count: u64,
    path: &Vec<char>,
    min_key: &str,
    max_key: &str,
    unit: &str,
    problems: &mut Vec<String>,
)
    ensures
        texts(final(problems)@) == texts(old(problems)@) + count_problems(
            *s,
            count as nat,
            path@,
            min_key@,
            max_key@,
            unit@,
        ),
{
    let ghost start = texts(problems@);
    let ghost first = match count_field(*s, min_key@) {
        Some(min) => if count < min {
            seq![
                path@ + ": expected at least "@ + min_key@ + " "@ + decimal(min as nat) + unit@
                    + ", found "@ + decimal(count as nat),
            ]
        } else {
            Seq::empty()
        },
        None => Seq::empty(),
    };
    match count_field_in(s, min_key) {
        Some(min) => if count < min {
            let mut m = joined(path, ": expected at least ");
            extend_str(&mut m, min_key);
            extend_str(&mut m, " ");
            extend_chars(&mut m, &decimal_chars(min));
            extend_str(&mut m, unit);
            extend_str(&mut m, ", found ");
            extend_chars(&mut m, &decimal_chars(count));
            push_message(problems, &m);
        },
        None => {},
    }
    assert(texts(problems@) =~= start + first);
    let ghost mid = texts(problems@);
    let ghost second = match count_field(*s, max_key@) {
        Some(max) => if count > max {
            seq![
                path@ + ": expected at most "@ + max_key@ + " "@ + decimal(max as nat) + unit@
                    + ", found "@ + decimal(count as nat),
            ]
        } else {
            Seq::empty()
        },
        None => Seq::empty(),
    };
    match count_field_in(s, max_key) {
        Some(max) => if count > max {
            let mut m = joined(path, ": expected at most ");
            extend_str(&mut m, max_key);
            extend_str(&mut m, " ");
            extend_chars(&mut m, &decimal_chars(max));
            extend_str(&mut m, unit);
            extend_str(&mut m, ", found ");
            extend_chars(&mut m, &decimal_chars(count));
            push_message(problems, &m);
        },
        None => {},
    }
    assert(texts(problems@) =~= mid + second);
    assert(start + first + second =~= start + (first + second));
}

/// Append the problems of a number against `minimum` and `maximum`.
fn bound_problems_in(s: &Json, t: &String, path: &Vec<char>, problems: &mut Vec<String>)
    ensures
        texts(final(problems)@) == texts(old(problems)@) + bound_problems(*s, t@, path@),
{
    let ghost start = texts(problems@);
    let tc = chars_of(t.as_str());
    let ghost first = match field(*s, "minimum"@) {
        Some(Json::Number(b)) => if num_below(t@, b.text@) {
            seq![path@ + ": "@ + t@ + " is less than the minimum "@ + plain(b.text@)]
        } else {
            Seq::empty()
        },
        _ => Seq::empty(),
    };
    match s.get("minimum") {
        Some(j) => match j {
            Json::Number(b) => {
                let bc = chars_of(b.text.as_str());
                if below(&tc, &bc) {
                    let mut m = joined(path, ": ");
                    extend_str(&mut m, t.as_str());
                    extend_str(&mut m, " is less than the minimum ");
                    extend_chars(&mut m, &plain_text(&bc));
                    push_message(problems, &m);
                }
            },
            _ => {},
        },
        None => {},
    }
    assert(texts(problems@) =~= start + first);
    let ghost mid = texts(problems@);
    let ghost second = match field(*s, "maximum"@) {
        Some(Json::Number(b)) => if num_below(b.text@, t@) {
            seq![path@ + ": "@ + t@ + " is greater than the maximum "@ + plain(b.text@)]
        } else {
            Seq::empty()
        },
        _ => Seq::empty(),
    };
    match s.get("maximum") {
        Some(j) => match j {
            Json::Number(b) => {
                let bc = chars_of(b.text.as_str());
                if below(&bc, &tc) {
                    let mut m = joined(path, ": ");
                    extend_str(&mut m, t.as_str());
                    extend_str(&mut m, " is greater than the maximum ");
                    extend_chars(&mut m, &plain_text(&bc));
                    push_message(problems, &m);
                }
            },
            _ => {},
        },
        None => {},
    }
    assert(texts(problems@) =~= mid + second);
    assert(start + first + second =~= start + (first + second));
}

/// Check a value against a subschema at the path `path`, appending one message per problem.
pub fn validate_at(s: &Json, v: &Json, path: &Vec<char>, problems: &mut Vec<String>)
    ensures
        texts(final(problems)@) == texts(old(problems)@) + problems_of(*s, *v, path@),
    decreases size(*s), 0int,
{
    let ghost start = texts(problems@);
    if !s.is_object() {
        assert(texts(problems@) =~= start + Seq::<Seq<char>>::empty());
        return;
    }
    match enum_problem_in(s, v, path) {
        Some(m) => {
            push_message(problems, &m);
            assert(texts(problems@) =~= start + seq![m@]);
            return;
        },
        None => {},
    }
    match type_problem_at_in(s, v, path) {
        Some(m) => {
            push_message(problems, &m);
            assert(texts(problems@) =~= start + seq![m@]);
            return;
        },
        None => {},
    }
    match v {
        Json::Object(fm) => {
            member_problems_in(s, fm, v, path, problems);
            let ghost mid = texts(problems@);
            match s.get("properties") {
                Some(p) => match p {
                    Json::Object(pm) => {
                        proof {
                            lemma_field_smaller(*s, "properties"@);
                            assert(size(*p) == 1 + msizes_from(pm@, 0));
                        }
                        validate_props(pm, v, path, problems);
                    },
                    _ => {
                        assert(texts(problems@) =~= mid + Seq::<Seq<char>>::empty());
                    },
                },
                None => {
                    assert(texts(problems@) =~= mid + Seq::<Seq<char>>::empty());
                },
            }
            assert(start + member_problems(*s, fm@, *v, path@) + texts(problems@).skip(
                mid.len() as int,
            ) =~= texts(problems@));
        },
        Json::Array(el) => {
            count_problems_in(s, el.len() as u64, path, "minItems", "maxItems", "", problems);
            let ghost mid = texts(problems@);
            match s.get("items") {
                Some(sub) => {
                    proof {
                        lemma_field_smaller(*s, "items"@);
                    }
                    validate_items(sub, el, path, problems);
                },
                None => {
                    assert(texts(problems@) =~= mid + Seq::<Seq<char>>::empty());
                },
            }
            assert(start + (mid.skip(start.len() as int)) + texts(problems@).skip(
                mid.len() as int,
            ) =~= texts(problems@));
        },
        Json::Str(t) => {
            let n = chars_of(t.as_str()).len();
            count_problems_in(
                s,
                n as u64,
                path,
                "minLength",
                "maxLength",
                " characters",
                problems,
            );
        },
        Json::Number(n) => {
            bound_problems_in(s, &n.text, path, problems);
        },
        _ => {
            assert(texts(problems@) =~= start + Seq::<Seq<char>>::empty());
        },
    }
}

/// Check the members that `properties` names against their subschemas.
fn validate_props(pm: &Vec<(String, Json)>, v: &Json, path: &Vec<char>, problems: &mut Vec<String>)
    ensures
        texts(final(problems)@) == texts(old(problems)@) + props_problems(pm@, 0, *v, path@),
    decreases msizes_from(pm@, 0), 1int,
{
    let ghost start = texts(problems@);
    let mut k: usize = 0;
    while k < pm.len()
        invariant
            k <= pm@.len(),
            start + props_problems(pm@, 0, *v, path@) == texts(problems@) + props_problems(
                pm@,
                k as int,
                *v,
                path@,
            ),
        decreases pm@.len() - k,
    {
        let name = &pm[k].0;
        assert(name@ == pm@[k as int].0@);
        let ghost before = texts(problems@);
        let mut p = joined(path, ".");
        extend_str(&mut p, name.as_str());
        match v.get(name.as_str()) {
            Some(f) => {
                proof {
                    lemma_member_smaller(pm@, 0, k as int);
                }
                validate_at(&pm[k].1, f, &p, problems);
            },
            None => {},
        }
        proof {
            let here = match field(*v, pm@[k as int].0@) {
                Some(f) => problems_of(pm@[k as int].1, f, path@ + "."@ + pm@[k as int].0@),
                None => Seq::empty(),
            };
            assert(props_problems(pm@, k as int, *v, path@) =~= here + props_problems(
                pm@,
                k + 1,
                *v,
                path@,
            ));
            assert(texts(problems@) =~= before + here);
            assert(before + (here + props_problems(pm@, k + 1, *v, path@)) =~= (before + here)
                + props_problems(pm@, k + 1, *v, path@));
        }
        k = k + 1;
    }
    assert(props_problems(pm@, k as int, *v, path@) =~= Seq::<Seq<char>>::empty());
    assert(texts(problems@) + Seq::<Seq<char>>::empty() =~= texts(problems@));
}

/// Check each item against the `items` subschema; the path carries the index.
fn validate_items(sub: &Json, el: &Vec<Json>, path: &Vec<char>, problems: &mut Vec<String>)
    ensures
        texts(final(problems)@) == texts(old(problems)@) + elems_problems(*sub, el@, 0, path@),
    decreases size(*sub), el@.len() + 1,
{
    let ghost start = texts(problems@);
    let mut i: usize = 0;
    while i < el.len()
        invariant
            i <= el@.len(),
            start + elems_problems(*sub, el@, 0, path@) == texts(problems@) + elems_problems(
                *sub,
                el@,
                i as int,
                path@,
            ),
        decreases el@.len() - i,
    {
        let ghost before = texts(problems@);
        let mut p = joined(path, "[");
        extend_chars(&mut p, &decimal_chars(i as u64));
        extend_str(&mut p, "]");
        validate_at(sub, &el[i], &p, problems);
        proof {
            let here = problems_of(*sub, el@[i as int], path@ + "["@ + decimal(i as nat) + "]"@);
            assert(elems_problems(*sub, el@, i as int, path@) =~= here + elems_problems(
                *sub,
                el@,
                i + 1,
                path@,
            ));
            assert(before + (here + elems_problems(*sub, el@, i + 1, path@)) =~= (before + here)
                + elems_problems(*sub, el@, i + 1, path@));
        }
        i = i + 1;
    }
    assert(elems_problems(*sub, el@, i as int, path@) =~= Seq::<Seq<char>>::empty());
    assert(texts(problems@) + Seq::<Seq<char>>::empty() =~= texts(problems@));
}

// =======================================================================================
// An example of the shape
// =======================================================================================

/// The first type named in a `type` keyword: what the example is shaped like when a schema
/// allows more than one, so that `["string", "null"]` shows the string.
pub open spec fn first_type_name(t: Json) -> Option<Seq<char>> {
    match t {
        Json::Str(n) => Some(n@),
        Json::Array(l) => if strings_of(l@).len() > 0 {
            Some(strings_of(l@)[0])
        } else {
            None
        },
        _ => None,
    }
}

/// The kind of value an example of the subschema is: its first type, or, with none, the
/// kind its keywords suggest (`properties` an object, `items` an array), or `null`.
pub open spec fn example_kind(s: Json) -> Seq<char> {
    let fallback = if field(s, "properties"@) is Some {
        "object"@
    } else if field(s, "items"@) is Some {
        "array"@
    } else {
        "null"@
    };
    match field(s, "type"@) {
        Some(t) => match first_type_name(t) {
            Some(n) => n,
            None => fallback,
        },
        None => fallback,
    }
}

/// The example text of a string: `string`, padded with `x` up to `minLength`, then cut
/// down to `maxLength`.
pub open spec fn example_text(s: Json) -> Seq<char> {
    let base = "string"@;
    let padded = match count_field(s, "minLength"@) {
        Some(min) => if min > base.len() {
            base + Seq::new((min - base.len()) as nat, |i: int| 'x')
        } else {
            base
        },
        None => base,
    };
    match count_field(s, "maxLength"@) {
        Some(max) => if padded.len() > max {
            padded.take(max as int)
        } else {
            padded
        },
        None => padded,
    }
}

/// How many items an example array holds: one when there is an `items` subschema and none
/// without, raised to `minItems`, then lowered to `maxItems`.
pub open spec fn example_count(s: Json) -> nat {
    let base: nat = if field(s, "items"@) is Some {
        1
    } else {
        0
    };
    let raised: nat = match count_field(s, "minItems"@) {
        Some(min) => if min > base {
            min as nat
        } else {
            base
        },
        None => base,
    };
    match count_field(s, "maxItems"@) {
        Some(max) => if raised > max {
            max as nat
        } else {
            raised
        },
        None => raised,
    }
}

/// The bound an example number takes when 0 is out of bounds: the `minimum` when 0 is below
/// it, else the `maximum` when it is below 0; none when 0 is within both.
pub open spec fn example_bound(s: Json) -> Option<JsonNumber> {
    let zero = decimal(0nat);
    let low = match field(s, "minimum"@) {
        Some(Json::Number(b)) => if num_below(zero, b.text@) {
            Some(b)
        } else {
            None
        },
        _ => None,
    };
    match low {
        Some(b) => Some(b),
        None => match field(s, "maximum"@) {
            Some(Json::Number(b)) => if num_below(b.text@, zero) {
                Some(b)
            } else {
                None
            },
            _ => None,
        },
    }
}

/// Whether `e` is a number with the text and the integer readings of `b`.
pub open spec fn is_number_like(e: Json, b: JsonNumber) -> bool {
    e matches Json::Number(n) && n.text@ == b.text@ && n.unsigned == b.unsigned && n.signed
        == b.signed
}

/// Whether `e` is the example of the subschema: the first allowed value when there is an
/// `enum`; an object with exactly the properties named, each its own example; an array of
/// `example_count` items, each the example of `items` (`null` without it); the text
/// `example_text`; the number 0, or the bound that 0 falls outside; `true`; or `null`.
pub open spec fn is_example(s: Json, e: Json) -> bool
    decreases size(s), 0int,
{
    if s is Object {
        let first = match field(s, "enum"@) {
            Some(Json::Array(l)) => if l@.len() > 0 {
                Some(l@[0])
            } else {
                None
            },
            _ => None,
        };
        match first {
            Some(x) => same(e, x),
            None => {
                let kind = example_kind(s);
                if kind == "object"@ {
                    match e {
                        Json::Object(em) => match field(s, "properties"@) {
                            Some(p) => match p {
                                Json::Object(pm) => {
                                    proof {
                                        lemma_field_smaller(s, "properties"@);
                                        assert(size(p) == 1 + msizes_from(pm@, 0));
                                    }
                                    em@.len() == pm@.len() && example_members(pm@, em@, 0)
                                },
                                _ => em@.len() == 0,
                            },
                            None => em@.len() == 0,
                        },
                        _ => false,
                    }
                } else if kind == "array"@ {
                    match e {
                        Json::Array(el) => el@.len() == example_count(s) && match field(
                            s,
                            "items"@,
                        ) {
                            Some(sub) => {
                                proof {
                                    lemma_field_smaller(s, "items"@);
                                }
                                example_items(sub, el@, 0)
                            },
                            None => forall|i: int| 0 <= i < el@.len() ==> (#[trigger] el@[i]) is Null,
                        },
                        _ => false,
                    }
                } else if kind == "string"@ {
                    e matches Json::Str(t) && t@ == example_text(s)
                } else if kind == "integer"@ || kind == "number"@ {
                    match example_bound(s) {
                        Some(b) => is_number_like(e, b),
                        None => crate::json::is_count(e, 0),
                    }
                } else if kind == "boolean"@ {
                    e matches Json::Bool(b) && b
                } else {
                    e is Null
                }
            },
        }
    } else {
        e is Null
    }
}

/// Whether the items from the `i`-th on are each the example of the `items` subschema.
pub open spec fn example_items(sub: Json, el: Seq<Json>, i: int) -> bool
    decreases size(sub), el.len() - i + 1,
{
    if 0 <= i < el.len() {
        is_example(sub, el[i]) && example_items(sub, el, i + 1)
    } else {
        true
    }
}

/// Whether the members from the `k`-th on are named as `properties` names them, each value
/// the example of its subschema.
pub open spec fn example_members(pm: Seq<(String, Json)>, em: Seq<(String, Json)>, k: int) -> bool
    decreases msizes_from(pm, k), 1int,
{
    if 0 <= k < pm.len() {
        em[k].0@ == pm[k].0@ && is_example(pm[k].1, em[k].1) && example_members(pm, em, k + 1)
    } else {
        true
    }
}

proof fn lemma_example_members(pm: Seq<(String, Json)>, em: Seq<(String, Json)>, k: int)
    requires
        0 <= k <= pm.len(),
        em.len() == pm.len(),
        forall|j: int|
            0 <= j < pm.len() ==> (#[trigger] em[j]).0@ == pm[j].0@ && is_example(pm[j].1, em[j].1),
    ensures
        example_members(pm, em, k),
    decreases pm.len() - k,
{
    if k < pm.len() {
        assert(em[k].0@ == pm[k].0@);
        lemma_example_members(pm, em, k + 1);
    }
}

/// The first type named in a `type` keyword.
pub fn first_type_name_in(t: &Json) -> (r: Option<Vec<char>>)
    ensures
        vo(r) == first_type_name(*t),
{
    match t {
        Json::Str(n) => Some(chars_of(n.as_str())),
        Json::Array(l) => {
            let names = strings_in(l);
            if names.len() > 0 {
                assert(names@[0]@ == views(names@)[0]);
                Some(copy_range(&names[0], 0, names[0].len()))
            } else {
                None
            }
        },
        _ => None,
    }
}

/// The kind of value an example of the subschema is.
pub fn example_kind_in(s: &Json) -> (r: Vec<char>)
    ensures
        r@ == example_kind(*s),
{
    let fallback = if s.get("properties").is_some() {
        chars_of("object")
    } else if s.get("items").is_some() {
        chars_of("array")
    } else {
        chars_of("null")
    };
    match s.get("type") {
        Some(t) => match first_type_name_in(t) {
            Some(n) => n,
            None => fallback,
        },
        None => fallback,
    }
}

proof fn lemma_example_items(sub: Json, el: Seq<Json>, i: int)
    requires
        0 <= i <= el.len(),
        forall|j: int| 0 <= j < el.len() ==> is_example(sub, #[trigger] el[j]),
    ensures
        example_items(sub, el, i),
    decreases el.len() - i,
{
    if i < el.len() {
        lemma_example_items(sub, el, i + 1);
    }
}

/// How many items an example array holds.
pub fn example_count_in(s: &Json) -> (n: u64)
    ensures
        n == example_count(*s),
{
    let base: u64 = if s.get("items").is_some() {
        1
    } else {
        0
    };
    let raised: u64 = match count_field_in(s, "minItems") {
        Some(min) => if min > base {
            min
        } else {
            base
        },
        None => base,
    };
    match count_field_in(s, "maxItems") {
        Some(max) => if raised > max {
            max
        } else {
            raised
        },
        None => raised,
    }
}

/// The bound an example number takes when 0 is out of bounds.
pub fn example_bound_in(s: &Json) -> (r: Option<&JsonNumber>)
    ensures
        match r {
            Some(b) => example_bound(*s) == Some(*b),
            None => example_bound(*s) is None,
        },
{
    let zero = decimal_chars(0);
    match s.get("minimum") {
        Some(Json::Number(b)) => {
            if below(&zero, &chars_of(b.text.as_str())) {
                return Some(b);
            }
        },
        _ => {},
    }
    match s.get("maximum") {
        Some(Json::Number(b)) => {
            if below(&chars_of(b.text.as_str()), &zero) {
                return Some(b);
            }
        },
        _ => {},
    }
    None
}

/// The example of a subschema: a value of the shape it describes, within its bounds.
pub fn example_in(s: &Json) -> (e: Json)
    ensures
        is_example(*s, e),
    decreases size(*s), 0int,
{
    if !s.is_object() {
        return Json::Null;
    }
    match s.get("enum") {
        Some(en) => match en {
            Json::Array(l) => if l.len() > 0 {
                return copy_json(&l[0]);
            },
            _ => {},
        },
        None => {},
    }
    let kind = example_kind_in(s);
    if eq_str(&kind, "object") {
        let mut out: Vec<(String, Json)> = Vec::new();
        match s.get("properties") {
            Some(p) => match p {
                Json::Object(pm) => {
                    proof {
                        lemma_field_smaller(*s, "properties"@);
                        assert(size(*p) == 1 + msizes_from(pm@, 0));
                    }
                    let mut k: usize = 0;
                    while k < pm.len()
                        invariant
                            k <= pm@.len(),
                            out@.len() == k,
                            size(*p) < size(*s),
                            *p == Json::Object(*pm),
                            forall|j: int|
                                0 <= j < k ==> (#[trigger] out@[j]).0@ == pm@[j].0@ && is_example(
                                    pm@[j].1,
                                    out@[j].1,
                                ),
                        decreases pm@.len() - k,
                    {
                        proof {
                            lemma_member_smaller(pm@, 0, k as int);
                        }
                        let name = string_of(&chars_of(pm[k].0.as_str()));
                        let x = example_in(&pm[k].1);
                        out.push((name, x));
                        k = k + 1;
                    }
                    proof {
                        lemma_example_members(pm@, out@, 0);
                    }
                },
                _ => {},
            },
            None => {},
        }
        Json::Object(out)
    } else if eq_str(&kind, "array") {
        let n = example_count_in(s);
        let mut el: Vec<Json> = Vec::new();
        match s.get("items") {
            Some(sub) => {
                proof {
                    lemma_field_smaller(*s, "items"@);
                }
                let mut k: u64 = 0;
                while k < n
                    invariant
                        k <= n,
                        el@.len() == k,
                        size(*sub) < size(*s),
                        forall|j: int| 0 <= j < k ==> is_example(*sub, #[trigger] el@[j]),
                    decreases n - k,
                {
                    let x = example_in(sub);
                    el.push(x);
                    k = k + 1;
                }
                proof {
                    lemma_example_items(*sub, el@, 0);
                }
            },
            None => {
                let mut k: u64 = 0;
                while k < n
                    invariant
                        k <= n,
                        el@.len() == k,
                        forall|j: int| 0 <= j < k ==> (#[trigger] el@[j]) is Null,
                    decreases n - k,
                {
                    el.push(Json::Null);
                    k = k + 1;
                }
            },
        }
        Json::Array(el)
    } else if eq_str(&kind, "string") {
        let mut t = chars_of("string");
        let base: usize = t.len();
        let ghost b = t@;
        match count_field_in(s, "minLength") {
            Some(min) => {
                while (t.len() as u64) < min
                    invariant
                        base <= t@.len() <= if min > base {
                            min as int
                        } else {
                            base as int
                        },
                        b.len() == base,
                        t@ == b + Seq::new((t@.len() - base) as nat, |i: int| 'x'),
                    decreases min - t@.len(),
                {
                    t.push('x');
                    assert(t@ =~= b + Seq::new((t@.len() - base) as nat, |i: int| 'x'));
                }
                if min <= base as u64 {
                    assert(t@ =~= b);
                }
            },
            None => {},
        }
        let ghost padded = t@;
        match count_field_in(s, "maxLength") {
            Some(max) => if (t.len() as u64) > max {
                t = copy_range(&t, 0, max as usize);
                assert(t@ =~= padded.take(max as int));
            },
            None => {},
        }
        Json::Str(string_of(&t))
    } else if eq_str(&kind, "integer") || eq_str(&kind, "number") {
        match example_bound_in(s) {
            Some(b) => Json::Number(
                JsonNumber {
                    text: string_of(&chars_of(b.text.as_str())),
                    unsigned: b.unsigned,
                    signed: b.signed,
                },
            ),
            None => crate::json::count(0),
        }
    } else if eq_str(&kind, "boolean") {
        Json::Bool(true)
    } else {
        Json::Null
    }
}

// =======================================================================================
// The schema
// =======================================================================================

/// A JSON Schema, restricted to what this subset checks, read and checked up front.
#[derive(Debug)]
pub struct Schema {
    /// The schema as written: it is shown back in the prompt as it stands, and reading it
    /// has already shown that every keyword has the shape the checks expect.
    doc: Json,
}

impl View for Schema {
    type V = Json;

    closed spec fn view(&self) -> Json {
        self.doc
    }
}

/// Why a value is refused as a schema, if it is: it must be an object, and each subschema
/// must pass `check_spec` at its path from `$`.
pub open spec fn schema_refusal(doc: Json) -> Option<Seq<char>> {
    if doc is Object {
        check_spec(doc, "$"@)
    } else {
        Some("a schema must be a JSON object, found "@ + brief(doc))
    }
}

/// How the answer is named in the prompt: a `json array` when the schema's first type is an
/// array, else a `json object`.
pub open spec fn root_noun(doc: Json) -> Seq<char> {
    match field(doc, "type"@) {
        Some(t) => if first_type_name(t) == Some("array"@) {
            "json array"@
        } else {
            "json object"@
        },
        None => "json object"@,
    }
}

/// A value pretty-printed for the prompt, or in the compact form where that fails.
pub open spec fn render(j: Json) -> Seq<char> {
    match json_pretty(j) {
        Some(t) => t,
        None => json_text(j),
    }
}

/// The block for the system prompt: the answer is one JSON value and nothing else, then the
/// schema and the example.
pub open spec fn prompt_text(doc: Json, example: Json) -> Seq<char> {
    "Reply with a single "@ + root_noun(doc) + PROMPT_RULE@ + "It must satisfy this schema:\n\n```json\n"@
        + render(doc) + "\n```\n\nAn answer with the right shape looks like this:\n\n```json\n"@
        + render(example) + "\n```\n"@
}

pub const PROMPT_RULE: &'static str =
    " and nothing else: no prose before it, no words after it, and no markdown code fence around it. The answer is that value itself.\n\n";

/// A value pretty-printed for the prompt.
fn render_in(j: &Json) -> (out: Vec<char>)
    ensures
        out@ == render(*j),
{
    match pretty_text(j) {
        Some(t) => chars_of(t.as_str()),
        None => {
            let t = compact_text(j);
            chars_of(t.as_str())
        },
    }
}

impl Schema {
    /// The schema as the caller wrote it.
    pub fn raw(&self) -> (r: &Json)
        ensures
            *r == self@,
    {
        &self.doc
    }

    /// Accept a value as a schema: an object whose every keyword this subset checks, in the
    /// shape it expects; otherwise the first refusal.
    pub fn from_json(doc: Json) -> (r: Result<Schema, String>)
        ensures
            match r {
                Ok(sc) => schema_refusal(doc) is None && sc@ == doc,
                Err(e) => schema_refusal(doc) == Some(e@),
            },
    {
        if !doc.is_object() {
            let mut m = chars_of("a schema must be a JSON object, found ");
            let b = brief_chars(&doc);
            extend_chars(&mut m, &b);
            return Err(string_of(&m));
        }
        let root = chars_of("$");
        match check_schema(&doc, &root) {
            Some(m) => Err(string_of(&m)),
            None => Ok(Schema { doc }),
        }
    }

    /// Read a schema from its text. Text that is not JSON, a value that is not an object, and
    /// a keyword outside the subset are each refused with a message.
    pub fn parse(text: &str) -> (r: Result<Schema, String>)
        ensures
            match crate::json::json_read(text@) {
                Ok(doc) => match r {
                    Ok(sc) => schema_refusal(doc) is None && sc@ == doc,
                    Err(e) => schema_refusal(doc) == Some(e@),
                },
                Err(m) => r matches Err(e) && e@ == "the schema is not valid JSON: "@ + m,
            },
    {
        match Json::parse(text) {
            Ok(doc) => Schema::from_json(doc),
            Err(m) => {
                let mut out = chars_of("the schema is not valid JSON: ");
                extend_chars(&mut out, &chars_of(m.as_str()));
                Err(string_of(&out))
            },
        }
    }

    /// A skeleton instance shaped like the schema, for the part of the prompt that shows what
    /// an answer looks like: within its lengths, counts and bounds, so that it is an answer the
    /// schema accepts wherever one such value can be (`law_the_example_passes`).
    pub fn example(&self) -> (e: Json)
        ensures
            is_example(self@, e),
    {
        example_in(&self.doc)
    }

    /// Check an instance: no messages when it is valid, otherwise one per problem, each
    /// naming a JSON path from `$`.
    pub fn validate(&self, value: &Json) -> (problems: Vec<String>)
        ensures
            texts(problems@) == problems_of(self@, *value, "$"@),
    {
        let mut problems: Vec<String> = Vec::new();
        let root = chars_of("$");
        validate_at(&self.doc, value, &root, &mut problems);
        assert(texts(problems@) =~= Seq::<Seq<char>>::empty() + problems_of(
            self@,
            *value,
            "$"@,
        ));
        problems
    }

    /// The block for the system prompt, showing the given example.
    pub fn prompt_with(&self, example: &Json) -> (out: String)
        ensures
            out@ == prompt_text(self@, *example),
    {
        let mut m = chars_of("Reply with a single ");
        let noun = match self.doc.get("type") {
            Some(t) => match first_type_name_in(t) {
                Some(n) => if eq_str(&n, "array") {
                    "json array"
                } else {
                    "json object"
                },
                None => "json object",
            },
            None => "json object",
        };
        extend_str(&mut m, noun);
        extend_str(&mut m, PROMPT_RULE);
        extend_str(&mut m, "It must satisfy this schema:\n\n```json\n");
        extend_chars(&mut m, &render_in(&self.doc));
        extend_str(&mut m, "\n```\n\nAn answer with the right shape looks like this:\n\n```json\n");
        extend_chars(&mut m, &render_in(example));
        extend_str(&mut m, "\n```\n");
        string_of(&m)
    }

    /// The block for the system prompt: the answer is one JSON value and nothing else,
    /// followed by the schema and an example of the shape.
    pub fn prompt_section(&self) -> (out: String)
        ensures
            exists|e: Json| is_example(self@, e) && out@ == prompt_text(self@, e),
    {
        let e = self.example();
        self.prompt_with(&e)
    }
}

/// The length and first two characters of each keyword and type name: enough to tell any
/// two of them apart.
proof fn lemma_keyword_texts()
    ensures
        "type"@.len() == 4 && "type"@[0] == 't' && "type"@[1] == 'y',
        "properties"@.len() == 10 && "properties"@[0] == 'p' && "properties"@[1] == 'r',
        "items"@.len() == 5 && "items"@[0] == 'i' && "items"@[1] == 't',
        "additionalProperties"@.len() == 20 && "additionalProperties"@[0] == 'a' && "additionalProperties"@[1] == 'd',
        "required"@.len() == 8 && "required"@[0] == 'r' && "required"@[1] == 'e',
        "enum"@.len() == 4 && "enum"@[0] == 'e' && "enum"@[1] == 'n',
        "minimum"@.len() == 7 && "minimum"@[0] == 'm' && "minimum"@[1] == 'i',
        "maximum"@.len() == 7 && "maximum"@[0] == 'm' && "maximum"@[1] == 'a',
        "minLength"@.len() == 9 && "minLength"@[0] == 'm' && "minLength"@[1] == 'i',
        "maxLength"@.len() == 9 && "maxLength"@[0] == 'm' && "maxLength"@[1] == 'a',
        "minItems"@.len() == 8 && "minItems"@[0] == 'm' && "minItems"@[1] == 'i',
        "maxItems"@.len() == 8 && "maxItems"@[0] == 'm' && "maxItems"@[1] == 'a',
        "description"@.len() == 11 && "description"@[0] == 'd' && "description"@[1] == 'e',
        "title"@.len() == 5 && "title"@[0] == 't' && "title"@[1] == 'i',
        "default"@.len() == 7 && "default"@[0] == 'd' && "default"@[1] == 'e',
        "examples"@.len() == 8 && "examples"@[0] == 'e' && "examples"@[1] == 'x',
        "$schema"@.len() == 7 && "$schema"@[0] == '$' && "$schema"@[1] == 's',
        "$comment"@.len() == 8 && "$comment"@[0] == '$' && "$comment"@[1] == 'c',
        "object"@.len() == 6 && "object"@[0] == 'o' && "object"@[1] == 'b',
        "array"@.len() == 5 && "array"@[0] == 'a' && "array"@[1] == 'r',
        "string"@.len() == 6 && "string"@[0] == 's' && "string"@[1] == 't',
        "number"@.len() == 6 && "number"@[0] == 'n' && "number"@[1] == 'u',
        "integer"@.len() == 7 && "integer"@[0] == 'i' && "integer"@[1] == 'n',
        "boolean"@.len() == 7 && "boolean"@[0] == 'b' && "boolean"@[1] == 'o',
        "null"@.len() == 4 && "null"@[0] == 'n' && "null"@[1] == 'u',
{
    reveal_strlit("type");
    assert("type"@.len() == 4 && "type"@[0] == 't' && "type"@[1] == 'y');
    reveal_strlit("properties");
    assert("properties"@.len() == 10 && "properties"@[0] == 'p' && "properties"@[1] == 'r');
    reveal_strlit("items");
    assert("items"@.len() == 5 && "items"@[0] == 'i' && "items"@[1] == 't');
    reveal_strlit("additionalProperties");
    assert("additionalProperties"@.len() == 20 && "additionalProperties"@[0] == 'a' && "additionalProperties"@[1] == 'd');
    reveal_strlit("required");
    assert("required"@.len() == 8 && "required"@[0] == 'r' && "required"@[1] == 'e');
    reveal_strlit("enum");
    assert("enum"@.len() == 4 && "enum"@[0] == 'e' && "enum"@[1] == 'n');
    reveal_strlit("minimum");
    assert("minimum"@.len() == 7 && "minimum"@[0] == 'm' && "minimum"@[1] == 'i');
    reveal_strlit("maximum");
    assert("maximum"@.len() == 7 && "maximum"@[0] == 'm' && "maximum"@[1] == 'a');
    reveal_strlit("minLength");
    assert("minLength"@.len() == 9 && "minLength"@[0] == 'm' && "minLength"@[1] == 'i');
    reveal_strlit("maxLength");
    assert("maxLength"@.len() == 9 && "maxLength"@[0] == 'm' && "maxLength"@[1] == 'a');
    reveal_strlit("minItems");
    assert("minItems"@.len() == 8 && "minItems"@[0] == 'm' && "minItems"@[1] == 'i');
    reveal_strlit("maxItems");
    assert("maxItems"@.len() == 8 && "maxItems"@[0] == 'm' && "maxItems"@[1] == 'a');
    reveal_strlit("description");
    assert("description"@.len() == 11 && "description"@[0] == 'd' && "description"@[1] == 'e');
    reveal_strlit("title");
    assert("title"@.len() == 5 && "title"@[0] == 't' && "title"@[1] == 'i');
    reveal_strlit("default");
    assert("default"@.len() == 7 && "default"@[0] == 'd' && "default"@[1] == 'e');
    reveal_strlit("examples");
    assert("examples"@.len() == 8 && "examples"@[0] == 'e' && "examples"@[1] == 'x');
    reveal_strlit("$schema");
    assert("$schema"@.len() == 7 && "$schema"@[0] == '$' && "$schema"@[1] == 's');
    reveal_strlit("$comment");
    assert("$comment"@.len() == 8 && "$comment"@[0] == '$' && "$comment"@[1] == 'c');
    reveal_strlit("object");
    assert("object"@.len() == 6 && "object"@[0] == 'o' && "object"@[1] == 'b');
    reveal_strlit("array");
    assert("array"@.len() == 5 && "array"@[0] == 'a' && "array"@[1] == 'r');
    reveal_strlit("string");
    assert("string"@.len() == 6 && "string"@[0] == 's' && "string"@[1] == 't');
    reveal_strlit("number");
    assert("number"@.len() == 6 && "number"@[0] == 'n' && "number"@[1] == 'u');
    reveal_strlit("integer");
    assert("integer"@.len() == 7 && "integer"@[0] == 'i' && "integer"@[1] == 'n');
    reveal_strlit("boolean");
    assert("boolean"@.len() == 7 && "boolean"@[0] == 'b' && "boolean"@[1] == 'o');
    reveal_strlit("null");
    assert("null"@.len() == 4 && "null"@[0] == 'n' && "null"@[1] == 'u');
}

// =======================================================================================
// What holds of every schema and every answer
// =======================================================================================

/// The keywords of the subset, annotations included.
pub open spec fn in_subset(kw: Seq<char>) -> bool {
    kw == "type"@ || kw == "properties"@ || kw == "required"@ || kw == "additionalProperties"@
        || kw == "items"@ || kw == "enum"@ || kw == "minimum"@ || kw == "maximum"@ || kw
        == "minLength"@ || kw == "maxLength"@ || kw == "minItems"@ || kw == "maxItems"@
        || is_annotation(kw)
}

/// A keyword outside the subset is refused, never ignored: in a subschema that is accepted,
/// every keyword is one of the subset, the subschema under `items` is accepted, and so is
/// each subschema under an object `properties`, each at its own path.
pub proof fn law_an_accepted_schema_holds_only_the_subset(node: Json, at: Seq<char>, i: int)
    requires
        check_spec(node, at) is None,
        node is Object,
        0 <= i < node->Object_0@.len(),
    ensures
        in_subset(node->Object_0@[i].0@),
        node->Object_0@[i].0@ == "items"@ ==> check_spec(node->Object_0@[i].1, at + ".items"@)
            is None,
        node->Object_0@[i].0@ == "properties"@ ==> node->Object_0@[i].1 is Object,
        node->Object_0@[i].0@ == "properties"@ && node->Object_0@[i].1 is Object ==> forall|
            k: int,
        |
            0 <= k < node->Object_0@[i].1->Object_0@.len() ==> check_spec(
                #[trigger] node->Object_0@[i].1->Object_0@[k].1,
                at + ".properties."@ + node->Object_0@[i].1->Object_0@[k].0@,
            ) is None,
{
    lemma_rules_accepted(node->Object_0@, 0, i, at);
}

proof fn lemma_rules_accepted(rules: Seq<(String, Json)>, j: int, i: int, at: Seq<char>)
    requires
        0 <= j <= i < rules.len(),
        check_rules(rules, j, at) is None,
    ensures
        in_subset(rules[i].0@),
        rules[i].0@ == "items"@ ==> check_spec(rules[i].1, at + ".items"@) is None,
        rules[i].0@ == "properties"@ ==> rules[i].1 is Object,
        rules[i].0@ == "properties"@ && rules[i].1 is Object ==> check_props(
            rules[i].1->Object_0@,
            0,
            at,
        ) is None,
        rules[i].0@ == "properties"@ && rules[i].1 is Object ==> forall|k: int|
            0 <= k < rules[i].1->Object_0@.len() ==> check_spec(
                #[trigger] rules[i].1->Object_0@[k].1,
                at + ".properties."@ + rules[i].1->Object_0@[k].0@,
            ) is None,
    decreases i - j,
{
    if j < i {
        lemma_rules_accepted(rules, j + 1, i, at);
    } else {
        let spec = rules[i].1;
        lemma_keyword_texts();
        if rules[i].0@ == "properties"@ && !(spec is Object) {
            assert(keyword_problem(rules[i].0@, spec, at) is Some);
        }
        if rules[i].0@ == "properties"@ && spec is Object {
            assert forall|k: int| 0 <= k < spec->Object_0@.len() implies check_spec(
                #[trigger] spec->Object_0@[k].1,
                at + ".properties."@ + spec->Object_0@[k].0@,
            ) is None by {
                lemma_props_accepted(spec->Object_0@, 0, k, at);
            }
        }
    }
}

proof fn lemma_props_accepted(pm: Seq<(String, Json)>, j: int, k: int, at: Seq<char>)
    requires
        0 <= j <= k < pm.len(),
        check_props(pm, j, at) is None,
    ensures
        check_spec(pm[k].1, at + ".properties."@ + pm[k].0@) is None,
    decreases k - j,
{
    if j < k {
        lemma_props_accepted(pm, j + 1, k, at);
    }
}

/// Whether every message starts with the path `p`.
pub open spec fn all_at(ps: Seq<Seq<char>>, p: Seq<char>) -> bool {
    forall|k: int| 0 <= k < ps.len() ==> crate::text::starts_with(#[trigger] ps[k], p)
}

proof fn lemma_all_at_concat(a: Seq<Seq<char>>, b: Seq<Seq<char>>, p: Seq<char>)
    requires
        all_at(a, p),
        all_at(b, p),
    ensures
        all_at(a + b, p),
{
    assert forall|k: int| 0 <= k < (a + b).len() implies crate::text::starts_with(
        #[trigger] (a + b)[k],
        p,
    ) by {
        if k < a.len() {
            assert((a + b)[k] == a[k]);
        } else {
            assert((a + b)[k] == b[k - a.len()]);
        }
    }
}

proof fn lemma_starts(p: Seq<char>, rest: Seq<char>)
    ensures
        crate::text::starts_with(p + rest, p),
{
    assert((p + rest).subrange(0, p.len() as int) =~= p);
}

proof fn lemma_all_at_longer(ps: Seq<Seq<char>>, p: Seq<char>, rest: Seq<char>)
    requires
        all_at(ps, p + rest),
    ensures
        all_at(ps, p),
{
    assert forall|k: int| 0 <= k < ps.len() implies crate::text::starts_with(#[trigger] ps[k], p) by {
        assert(crate::text::starts_with(ps[k], p + rest));
        assert(ps[k].subrange(0, p.len() as int) =~= (p + rest).subrange(0, p.len() as int));
        assert((p + rest).subrange(0, p.len() as int) =~= p);
    }
}

proof fn lemma_missing_at(names: Seq<Seq<char>>, i: int, v: Json, path: Seq<char>)
    requires
        0 <= i,
    ensures
        all_at(missing_from(names, i, v, path), path),
    decreases names.len() - i,
{
    if i < names.len() {
        lemma_missing_at(names, i + 1, v, path);
        lemma_starts(path, ": missing required property "@ + debug_text(names[i]));
        assert(path + ": missing required property "@ + debug_text(names[i]) =~= path + (
        ": missing required property "@ + debug_text(names[i])));
        let here = if field(v, names[i]) is None {
            seq![path + ": missing required property "@ + debug_text(names[i])]
        } else {
            Seq::empty()
        };
        lemma_all_at_concat(here, missing_from(names, i + 1, v, path), path);
    }
}

proof fn lemma_unexpected_at(
    fm: Seq<(String, Json)>,
    i: int,
    props: Option<Seq<(String, Json)>>,
    path: Seq<char>,
)
    requires
        0 <= i,
    ensures
        all_at(unexpected_from(fm, i, props, path), path),
    decreases fm.len() - i,
{
    if i < fm.len() {
        lemma_unexpected_at(fm, i + 1, props, path);
        let m = path + ": unexpected property "@ + debug_text(fm[i].0@)
            + " (additionalProperties is false)"@;
        assert(m =~= path + (": unexpected property "@ + debug_text(fm[i].0@)
            + " (additionalProperties is false)"@));
        lemma_starts(
            path,
            ": unexpected property "@ + debug_text(fm[i].0@) + " (additionalProperties is false)"@,
        );
        let here = if !(props matches Some(pm) && crate::json::member(pm, fm[i].0@, 0) is Some) {
            seq![m]
        } else {
            Seq::empty()
        };
        lemma_all_at_concat(here, unexpected_from(fm, i + 1, props, path), path);
    }
}

proof fn lemma_local_at(s: Json, v: Json, path: Seq<char>)
    ensures
        v matches Json::Object(fm) ==> all_at(member_problems(s, fm@, v, path), path),
        all_at(count_problems(s, 0, path, "minItems"@, "maxItems"@, ""@), path),
{
    if let Json::Object(fm) = v {
        match field(s, "required"@) {
            Some(Json::Array(l)) => lemma_missing_at(strings_of(l@), 0, v, path),
            _ => {},
        }
        lemma_unexpected_at(fm@, 0, props_of(s), path);
        let a = match field(s, "required"@) {
            Some(Json::Array(l)) => missing_from(strings_of(l@), 0, v, path),
            _ => Seq::empty(),
        };
        let b = if field(s, "additionalProperties"@) == Some(Json::Bool(false)) {
            unexpected_from(fm@, 0, props_of(s), path)
        } else {
            Seq::empty()
        };
        lemma_all_at_concat(a, b, path);
    }
    lemma_count_at(s, 0, path, "minItems"@, "maxItems"@, ""@);
}

proof fn lemma_count_at(
    s: Json,
    count: nat,
    path: Seq<char>,
    min_key: Seq<char>,
    max_key: Seq<char>,
    unit: Seq<char>,
)
    ensures
        all_at(count_problems(s, count, path, min_key, max_key, unit), path),
{
    let a = match count_field(s, min_key) {
        Some(min) => if count < min {
            seq![
                path + ": expected at least "@ + min_key + " "@ + decimal(min as nat) + unit
                    + ", found "@ + decimal(count),
            ]
        } else {
            Seq::empty()
        },
        None => Seq::empty(),
    };
    let b = match count_field(s, max_key) {
        Some(max) => if count > max {
            seq![
                path + ": expected at most "@ + max_key + " "@ + decimal(max as nat) + unit
                    + ", found "@ + decimal(count),
            ]
        } else {
            Seq::empty()
        },
        None => Seq::empty(),
    };
    if let Some(min) = count_field(s, min_key) {
        let m = path + ": expected at least "@ + min_key + " "@ + decimal(min as nat) + unit
            + ", found "@ + decimal(count);
        assert(m.subrange(0, path.len() as int) =~= path);
    }
    if let Some(max) = count_field(s, max_key) {
        let m = path + ": expected at most "@ + max_key + " "@ + decimal(max as nat) + unit
            + ", found "@ + decimal(count);
        assert(m.subrange(0, path.len() as int) =~= path);
    }
    lemma_all_at_concat(a, b, path);
}

proof fn lemma_bound_at(s: Json, t: Seq<char>, path: Seq<char>)
    ensures
        all_at(bound_problems(s, t, path), path),
{
    let a = match field(s, "minimum"@) {
        Some(Json::Number(b)) => if num_below(t, b.text@) {
            seq![path + ": "@ + t + " is less than the minimum "@ + plain(b.text@)]
        } else {
            Seq::empty()
        },
        _ => Seq::empty(),
    };
    let b = match field(s, "maximum"@) {
        Some(Json::Number(b)) => if num_below(b.text@, t) {
            seq![path + ": "@ + t + " is greater than the maximum "@ + plain(b.text@)]
        } else {
            Seq::empty()
        },
        _ => Seq::empty(),
    };
    if let Some(Json::Number(x)) = field(s, "minimum"@) {
        let m = path + ": "@ + t + " is less than the minimum "@ + plain(x.text@);
        assert(m.subrange(0, path.len() as int) =~= path);
    }
    if let Some(Json::Number(x)) = field(s, "maximum"@) {
        let m = path + ": "@ + t + " is greater than the maximum "@ + plain(x.text@);
        assert(m.subrange(0, path.len() as int) =~= path);
    }
    lemma_all_at_concat(a, b, path);
}

/// Every message names the JSON path of the value it is about, which starts with the path of
/// the value checked: the reader of a message is told where in the answer to look.
pub proof fn law_every_problem_names_its_path(s: Json, v: Json, path: Seq<char>)
    ensures
        all_at(problems_of(s, v, path), path),
    decreases size(s), 0int,
{
    if s is Object {
        match enum_problem(s, v, path) {
            Some(m) => {
                assert(m.subrange(0, path.len() as int) =~= path);
            },
            None => match type_problem_at(s, v, path) {
                Some(m) => {
                    assert(m.subrange(0, path.len() as int) =~= path);
                },
                None => match v {
                    Json::Object(fm) => {
                        lemma_local_at(s, v, path);
                        let rest = match field(s, "properties"@) {
                            Some(p) => match p {
                                Json::Object(pm) => {
                                    lemma_field_smaller(s, "properties"@);
                                    assert(size(p) == 1 + msizes_from(pm@, 0));
                                    lemma_props_at(pm@, 0, v, path);
                                    props_problems(pm@, 0, v, path)
                                },
                                _ => Seq::empty(),
                            },
                            None => Seq::empty(),
                        };
                        lemma_all_at_concat(member_problems(s, fm@, v, path), rest, path);
                    },
                    Json::Array(el) => {
                        lemma_count_at(s, el@.len(), path, "minItems"@, "maxItems"@, ""@);
                        let rest = match field(s, "items"@) {
                            Some(sub) => {
                                lemma_field_smaller(s, "items"@);
                                lemma_elems_at(sub, el@, 0, path);
                                elems_problems(sub, el@, 0, path)
                            },
                            None => Seq::empty(),
                        };
                        lemma_all_at_concat(
                            count_problems(s, el@.len(), path, "minItems"@, "maxItems"@, ""@),
                            rest,
                            path,
                        );
                    },
                    Json::Str(t) => {
                        lemma_count_at(
                            s,
                            t@.len(),
                            path,
                            "minLength"@,
                            "maxLength"@,
                            " characters"@,
                        );
                    },
                    Json::Number(n) => {
                        lemma_bound_at(s, n.text@, path);
                    },
                    _ => {},
                },
            },
        }
    }
}

proof fn lemma_props_at(pm: Seq<(String, Json)>, k: int, v: Json, path: Seq<char>)
    requires
        0 <= k,
    ensures
        all_at(props_problems(pm, k, v, path), path),
    decreases msizes_from(pm, k), 1int,
{
    if k < pm.len() {
        let here = match field(v, pm[k].0@) {
            Some(f) => {
                law_every_problem_names_its_path(pm[k].1, f, path + "."@ + pm[k].0@);
                assert(path + "."@ + pm[k].0@ =~= path + ("."@ + pm[k].0@));
                lemma_all_at_longer(
                    problems_of(pm[k].1, f, path + "."@ + pm[k].0@),
                    path,
                    "."@ + pm[k].0@,
                );
                problems_of(pm[k].1, f, path + "."@ + pm[k].0@)
            },
            None => Seq::empty(),
        };
        lemma_props_at(pm, k + 1, v, path);
        lemma_all_at_concat(here, props_problems(pm, k + 1, v, path), path);
    }
}

proof fn lemma_elems_at(sub: Json, el: Seq<Json>, i: int, path: Seq<char>)
    requires
        0 <= i,
    ensures
        all_at(elems_problems(sub, el, i, path), path),
    decreases size(sub), el.len() - i + 1,
{
    if i < el.len() {
        let p = path + "["@ + decimal(i as nat) + "]"@;
        law_every_problem_names_its_path(sub, el[i], p);
        assert(p =~= path + ("["@ + decimal(i as nat) + "]"@));
        lemma_all_at_longer(problems_of(sub, el[i], p), path, "["@ + decimal(i as nat) + "]"@);
        lemma_elems_at(sub, el, i + 1, path);
        lemma_all_at_concat(problems_of(sub, el[i], p), elems_problems(sub, el, i + 1, path), path);
    }
}

/// A value outside `enum` fails the most specific rule the schema states: that is its one
/// problem, and no later rule is checked.
pub proof fn law_a_value_outside_enum_has_one_problem(s: Json, v: Json, path: Seq<char>)
    requires
        s is Object,
        enum_problem(s, v, path) is Some,
    ensures
        problems_of(s, v, path) == seq![enum_problem(s, v, path).unwrap()],
{
}

/// A value of the wrong type has that one problem: the keywords of other kinds would be
/// meaningless on it.
pub proof fn law_a_wrong_type_is_the_one_problem(s: Json, v: Json, path: Seq<char>)
    requires
        s is Object,
        enum_problem(s, v, path) is None,
        type_problem_at(s, v, path) is Some,
    ensures
        problems_of(s, v, path) == seq![type_problem_at(s, v, path).unwrap()],
{
}

// =======================================================================================
// The example of a schema passes it
// =======================================================================================

/// Whether no two members share a name, as in every object `serde_json` reads.
pub open spec fn distinct_names(pm: Seq<(String, Json)>) -> bool {
    forall|i: int, j: int| 0 <= i < j < pm.len() ==> pm[i].0@ != pm[j].0@
}

/// The first allowed value of a subschema's `enum`, when it has one.
pub open spec fn first_allowed(s: Json) -> Option<Json> {
    match field(s, "enum"@) {
        Some(Json::Array(l)) => if l@.len() > 0 {
            Some(l@[0])
        } else {
            None
        },
        _ => None,
    }
}

/// Whether every name `required` lists is one that `properties` names.
pub open spec fn required_named(s: Json) -> bool {
    match field(s, "required"@) {
        Some(Json::Array(l)) => forall|i: int|
            0 <= i < strings_of(l@).len() ==> (props_of(s) matches Some(pm)
                && crate::json::member(pm, #[trigger] strings_of(l@)[i], 0) is Some),
        _ => true,
    }
}

/// Whether a `min…` keyword is at most its `max…` keyword, where both are given.
pub open spec fn counts_ordered(s: Json, min_key: Seq<char>, max_key: Seq<char>) -> bool {
    match (count_field(s, min_key), count_field(s, max_key)) {
        (Some(min), Some(max)) => min <= max,
        _ => true,
    }
}

/// Whether `minimum` is not above `maximum`, where both are given.
pub open spec fn bounds_ordered(s: Json) -> bool {
    match (field(s, "minimum"@), field(s, "maximum"@)) {
        (Some(Json::Number(a)), Some(Json::Number(b))) => !num_below(b.text@, a.text@),
        _ => true,
    }
}

/// Whether the example of a subschema meets it. It fails exactly where the keywords cannot
/// all be met by the value the example takes: a first allowed value that the rest refuses, a
/// required name no property has, a minimum above its maximum, a bound that is not whole for
/// an integer; and, below, where a subschema the example fills in fails so.
pub open spec fn example_fits(s: Json) -> bool
    decreases size(s), 0int,
{
    if s is Object {
        match first_allowed(s) {
            Some(x) => forall|v: Json, p: Seq<char>|
                same(v, x) ==> (#[trigger] problems_of(s, v, p)).len() == 0,
            None => {
                let kind = example_kind(s);
                if kind == "object"@ {
                    &&& required_named(s)
                    &&& match field(s, "properties"@) {
                        Some(p) => match p {
                            Json::Object(pm) => {
                                proof {
                                    lemma_field_smaller(s, "properties"@);
                                    assert(size(p) == 1 + msizes_from(pm@, 0));
                                }
                                distinct_names(pm@) && props_fit(pm@, 0)
                            },
                            _ => true,
                        },
                        None => true,
                    }
                } else if kind == "array"@ {
                    &&& counts_ordered(s, "minItems"@, "maxItems"@)
                    &&& match field(s, "items"@) {
                        Some(sub) => {
                            proof {
                                lemma_field_smaller(s, "items"@);
                            }
                            example_count(s) > 0 ==> example_fits(sub)
                        },
                        None => true,
                    }
                } else if kind == "string"@ {
                    counts_ordered(s, "minLength"@, "maxLength"@)
                } else if kind == "integer"@ || kind == "number"@ {
                    &&& bounds_ordered(s)
                    &&& (example_bound(s) matches Some(b) ==> type_matches(kind, Json::Number(b)))
                } else {
                    true
                }
            },
        }
    } else {
        true
    }
}

/// Whether the subschemas of `properties` from the `k`-th on each fit their example.
pub open spec fn props_fit(pm: Seq<(String, Json)>, k: int) -> bool
    decreases msizes_from(pm, k), 1int,
{
    if 0 <= k < pm.len() {
        example_fits(pm[k].1) && props_fit(pm, k + 1)
    } else {
        true
    }
}

proof fn lemma_props_fit_at(pm: Seq<(String, Json)>, k: int, j: int)
    requires
        0 <= k <= j < pm.len(),
        props_fit(pm, k),
    ensures
        example_fits(pm[j].1),
    decreases j - k,
{
    if k < j {
        lemma_props_fit_at(pm, k + 1, j);
    }
}

proof fn lemma_example_items_at(sub: Json, el: Seq<Json>, i: int, j: int)
    requires
        0 <= i <= j < el.len(),
        example_items(sub, el, i),
    ensures
        is_example(sub, el[j]),
    decreases j - i,
{
    if i < j {
        lemma_example_items_at(sub, el, i + 1, j);
    }
}

/// A member of an accepted subschema that is not a subschema itself has no problem of its own.
proof fn lemma_rules_keyword(rules: Seq<(String, Json)>, i: int, j: int, at: Seq<char>)
    requires
        0 <= i <= j < rules.len(),
        check_rules(rules, i, at) is None,
        rules[j].0@ != "properties"@,
        rules[j].0@ != "items"@,
    ensures
        keyword_problem(rules[j].0@, rules[j].1, at) is None,
    decreases j - i,
{
    if i < j {
        lemma_rules_keyword(rules, i + 1, j, at);
    }
}

/// An accepted subschema with an `enum` has a first allowed value.
proof fn lemma_enum_listed(s: Json, at: Seq<char>)
    requires
        check_spec(s, at) is None,
        s is Object,
        field(s, "enum"@) is Some,
    ensures
        first_allowed(s) is Some,
{
    lemma_keyword_texts();
    let rules = s->Object_0@;
    let j = lemma_member_at(rules, "enum"@, 0);
    lemma_rules_keyword(rules, 0, j, at);
}

/// The member named `key` at the `j`-th place is found from any earlier place.
proof fn lemma_member_found(m: Seq<(String, Json)>, key: Seq<char>, i: int, j: int)
    requires
        0 <= i <= j < m.len(),
        m[j].0@ == key,
    ensures
        crate::json::member(m, key, i) is Some,
    decreases j - i,
{
    if i < j && m[i].0@ != key {
        lemma_member_found(m, key, i + 1, j);
    }
}

/// No required name is missing when each is a member.
proof fn lemma_none_missing(names: Seq<Seq<char>>, i: int, v: Json, path: Seq<char>)
    requires
        0 <= i <= names.len(),
        forall|k: int| i <= k < names.len() ==> field(v, #[trigger] names[k]) is Some,
    ensures
        missing_from(names, i, v, path).len() == 0,
    decreases names.len() - i,
{
    if i < names.len() {
        lemma_none_missing(names, i + 1, v, path);
    }
}

/// A count within both of its keywords has no problem.
proof fn lemma_count_within(
    s: Json,
    count: nat,
    path: Seq<char>,
    min_key: Seq<char>,
    max_key: Seq<char>,
    unit: Seq<char>,
)
    requires
        count_field(s, min_key) matches Some(min) ==> min <= count,
        count_field(s, max_key) matches Some(max) ==> count <= max,
    ensures
        count_problems(s, count, path, min_key, max_key, unit).len() == 0,
{
}

/// The example of a subschema is one it accepts, wherever the keywords can all be met by the
/// value the example takes (see `example_fits`): the example shown to the model is an answer
/// the check would pass.
pub proof fn law_the_example_passes(s: Json, at: Seq<char>, e: Json, path: Seq<char>)
    requires
        check_spec(s, at) is None,
        example_fits(s),
        is_example(s, e),
    ensures
        problems_of(s, e, path).len() == 0,
    decreases size(s), 1int,
{
    if !(s is Object) {
        return;
    }
    lemma_keyword_texts();
    let rules = s->Object_0@;
    if first_allowed(s) is Some {
        let x = first_allowed(s).unwrap();
        assert(same(e, x));
        assert(problems_of(s, e, path).len() == 0);
        return;
    }
    if field(s, "enum"@) is Some {
        lemma_enum_listed(s, at);
    }
    assert(enum_problem(s, e, path) is None);
    let kind = example_kind(s);
    lemma_example_typed(s, at, e);
    assert(type_problem_at(s, e, path) is None);
    match e {
        Json::Object(em) => {
            assert(kind == "object"@) by {
                lemma_example_kind_of(s, e);
            }
            lemma_example_object(s, at, e, path);
        },
        Json::Array(el) => {
            assert(kind == "array"@) by {
                lemma_example_kind_of(s, e);
            }
            lemma_count_within(s, el@.len(), path, "minItems"@, "maxItems"@, ""@);
            match field(s, "items"@) {
                Some(sub) => {
                    lemma_field_smaller(s, "items"@);
                    let j = lemma_member_at(rules, "items"@, 0);
                    law_an_accepted_schema_holds_only_the_subset(s, at, j);
                    lemma_items_pass(s, sub, el@, 0, at + ".items"@, path);
                },
                None => {},
            }
        },
        Json::Str(t) => {
            assert(kind == "string"@) by {
                lemma_example_kind_of(s, e);
            }
            lemma_count_within(s, t@.len(), path, "minLength"@, "maxLength"@, " characters"@);
        },
        Json::Number(n) => {
            assert(kind == "integer"@ || kind == "number"@) by {
                lemma_example_kind_of(s, e);
            }
            crate::number::law_no_number_is_below_itself(n.text@);
        },
        _ => {},
    }
}

/// Each example item passes the `items` subschema.
proof fn lemma_items_pass(s: Json, sub: Json, el: Seq<Json>, i: int, at: Seq<char>, path: Seq<char>)
    requires
        s is Object,
        0 <= i <= el.len(),
        size(sub) < size(s),
        check_spec(sub, at) is None,
        el.len() > 0 ==> example_fits(sub),
        example_items(sub, el, 0),
    ensures
        elems_problems(sub, el, i, path).len() == 0,
    decreases size(sub), el.len() - i + 2,
{
    if i < el.len() {
        lemma_example_items_at(sub, el, 0, i);
        law_the_example_passes(sub, at, el[i], path + "["@ + decimal(i as nat) + "]"@);
        lemma_items_pass(s, sub, el, i + 1, at, path);
    }
}

/// The kind of an example that is an object, an array, a string or a number is the kind
/// the schema names.
proof fn lemma_example_kind_of(s: Json, e: Json)
    requires
        s is Object,
        is_example(s, e),
        first_allowed(s) is None,
    ensures
        e is Object ==> example_kind(s) == "object"@,
        e is Array ==> example_kind(s) == "array"@,
        e is Str ==> example_kind(s) == "string"@,
        e is Number ==> example_kind(s) == "integer"@ || example_kind(s) == "number"@,
{
    lemma_keyword_texts();
}

/// An example passes the `type` keyword of its schema: it is of the first type named.
proof fn lemma_example_typed(s: Json, at: Seq<char>, e: Json)
    requires
        check_spec(s, at) is None,
        s is Object,
        example_fits(s),
        is_example(s, e),
        first_allowed(s) is None,
    ensures
        type_names(s).len() > 0 ==> type_matches(type_names(s)[0], e),
{
    lemma_keyword_texts();
    if type_names(s).len() > 0 {
        let rules = s->Object_0@;
        let j = lemma_member_at(rules, "type"@, 0);
        law_an_accepted_schema_holds_only_the_subset(s, at, j);
        lemma_rules_type(rules, 0, j, at);
        let t = rules[j].1;
        assert(field(s, "type"@) == Some(t));
        assert(first_type_name(t) == Some(type_names(s)[0]));
        assert(example_kind(s) == type_names(s)[0]);
        assert(known_type(type_names(s)[0]));
    }
}

proof fn lemma_example_object(s: Json, at: Seq<char>, e: Json, path: Seq<char>)
    requires
        check_spec(s, at) is None,
        s is Object,
        example_fits(s),
        is_example(s, e),
        e is Object,
        example_kind(s) == "object"@,
        first_allowed(s) is None,
    ensures
        member_problems(s, e->Object_0@, e, path).len() == 0,
        (match field(s, "properties"@) {
            Some(p) => match p {
                Json::Object(pm) => props_problems(pm@, 0, e, path),
                _ => Seq::empty(),
            },
            None => Seq::empty(),
        }).len() == 0,
    decreases size(s), 0int,
{
    lemma_keyword_texts();
    let rules = s->Object_0@;
    let em = e->Object_0@;
    let missing = match field(s, "required"@) {
        Some(Json::Array(l)) => missing_from(strings_of(l@), 0, e, path),
        _ => Seq::empty(),
    };
    match field(s, "properties"@) {
        Some(p) => {
            let j = lemma_member_at(rules, "properties"@, 0);
            law_an_accepted_schema_holds_only_the_subset(s, at, j);
            let pm = p->Object_0@;
            assert(em.len() == pm.len() && example_members(pm, em, 0));
            lemma_example_members_at(pm, em, 0);
            // Every member of the example is named by `properties`.
            assert forall|i: int| 0 <= i < em.len() implies crate::json::member(pm, em[i].0@, 0)
                is Some by {
                lemma_member_distinct(pm, i, 0);
            }
            lemma_no_unexpected(em, 0, props_of(s), path);
            // Every required name is a property, and so a member of the example.
            match field(s, "required"@) {
                Some(Json::Array(l)) => {
                    let names = strings_of(l@);
                    assert forall|k: int| 0 <= k < names.len() implies field(
                        e,
                        #[trigger] names[k],
                    ) is Some by {
                        let w = lemma_member_at(pm, names[k], 0);
                        lemma_member_found(em, names[k], 0, w);
                    }
                    lemma_none_missing(names, 0, e, path);
                },
                _ => {},
            }
            lemma_field_smaller(s, "properties"@);
            assert(size(p) == 1 + msizes_from(pm, 0));
            lemma_props_pass(pm, 0, e, at + ".properties."@, path);
        },
        None => {
            assert(em.len() == 0);
            assert(unexpected_from(em, 0, props_of(s), path) =~= Seq::<Seq<char>>::empty());
            match field(s, "required"@) {
                Some(Json::Array(l)) => {
                    let names = strings_of(l@);
                    if names.len() > 0 {
                        assert(props_of(s) is None);
                        assert(false);
                    }
                    assert(missing_from(names, 0, e, path) =~= Seq::<Seq<char>>::empty());
                },
                _ => {},
            }
        },
    }
    assert(missing.len() == 0);
    assert(member_problems(s, em, e, path) =~= Seq::<Seq<char>>::empty());
}

/// Where the value found under a name stands.
proof fn lemma_member_at(m: Seq<(String, Json)>, key: Seq<char>, i: int) -> (j: int)
    requires
        0 <= i,
        crate::json::member(m, key, i) is Some,
    ensures
        i <= j < m.len(),
        m[j].0@ == key,
        crate::json::member(m, key, i) == Some(m[j].1),
    decreases m.len() - i,
{
    if m[i].0@ == key {
        i
    } else {
        lemma_member_at(m, key, i + 1)
    }
}

/// No member has the name: nothing is found under it.
proof fn lemma_member_absent(m: Seq<(String, Json)>, key: Seq<char>, i: int)
    requires
        0 <= i,
        forall|j: int| i <= j < m.len() ==> (#[trigger] m[j]).0@ != key,
    ensures
        crate::json::member(m, key, i) is None,
    decreases m.len() - i,
{
    if i < m.len() {
        lemma_member_absent(m, key, i + 1);
    }
}

/// The `k`-th of members with distinct names is what its name finds.
proof fn lemma_member_distinct(m: Seq<(String, Json)>, k: int, i: int)
    requires
        0 <= i <= k < m.len(),
        distinct_names(m),
    ensures
        crate::json::member(m, m[k].0@, i) == Some(m[k].1),
    decreases k - i,
{
    if i < k {
        assert(m[i].0@ != m[k].0@);
        lemma_member_distinct(m, k, i + 1);
    }
}

/// A `type` keyword of an accepted subschema names only known types.
proof fn lemma_rules_type(rules: Seq<(String, Json)>, i: int, j: int, at: Seq<char>)
    requires
        0 <= i <= j < rules.len(),
        check_rules(rules, i, at) is None,
        rules[j].0@ == "type"@,
    ensures
        type_problem(rules[j].1, at) is None,
    decreases j - i,
{
    lemma_keyword_texts();
    if i < j {
        lemma_rules_type(rules, i + 1, j, at);
    }
}

proof fn lemma_example_members_at(pm: Seq<(String, Json)>, em: Seq<(String, Json)>, k: int)
    requires
        0 <= k <= pm.len(),
        example_members(pm, em, k),
    ensures
        forall|i: int| k <= i < pm.len() ==> (#[trigger] em[i]).0@ == pm[i].0@ && is_example(
            pm[i].1,
            em[i].1,
        ),
    decreases pm.len() - k,
{
    if k < pm.len() {
        lemma_example_members_at(pm, em, k + 1);
    }
}

proof fn lemma_no_unexpected(
    em: Seq<(String, Json)>,
    i: int,
    props: Option<Seq<(String, Json)>>,
    path: Seq<char>,
)
    requires
        0 <= i <= em.len(),
        props matches Some(pm) && forall|k: int|
            0 <= k < em.len() ==> crate::json::member(pm, (#[trigger] em[k]).0@, 0) is Some,
    ensures
        unexpected_from(em, i, props, path).len() == 0,
    decreases em.len() - i,
{
    if i < em.len() {
        lemma_no_unexpected(em, i + 1, props, path);
    }
}

proof fn lemma_props_pass(
    pm: Seq<(String, Json)>,
    k: int,
    e: Json,
    at: Seq<char>,
    path: Seq<char>,
)
    requires
        0 <= k <= pm.len(),
        distinct_names(pm),
        props_fit(pm, 0),
        forall|i: int| 0 <= i < pm.len() ==> check_spec(#[trigger] pm[i].1, at + pm[i].0@) is None,
        e is Object,
        e->Object_0@.len() == pm.len(),
        forall|i: int|
            0 <= i < pm.len() ==> (#[trigger] e->Object_0@[i]).0@ == pm[i].0@ && is_example(
                pm[i].1,
                e->Object_0@[i].1,
            ),
    ensures
        props_problems(pm, k, e, path).len() == 0,
    decreases msizes_from(pm, k), 2int,
{
    if k < pm.len() {
        let em = e->Object_0@;
        assert(distinct_names(em)) by {
            assert forall|a: int, b: int| 0 <= a < b < em.len() implies em[a].0@ != em[b].0@ by {
                assert(em[a].0@ == pm[a].0@ && em[b].0@ == pm[b].0@);
            }
        }
        lemma_member_distinct(em, k, 0);
        assert(field(e, pm[k].0@) == Some(em[k].1));
        lemma_props_fit_at(pm, 0, k);
        law_the_example_passes(pm[k].1, at + pm[k].0@, em[k].1, path + "."@ + pm[k].0@);
        lemma_props_pass(pm, k + 1, e, at, path);
    }
}

/// The names a subschema's `required` lists (its strings), none without the keyword.
pub open spec fn required_names(s: Json) -> Seq<Seq<char>> {
    match field(s, "required"@) {
        Some(Json::Array(l)) => strings_of(l@),
        _ => Seq::empty(),
    }
}

proof fn lemma_missing_named(names: Seq<Seq<char>>, i: int, v: Json, path: Seq<char>, k: int)
    requires
        0 <= i <= k < names.len(),
        field(v, names[k]) is None,
    ensures
        missing_from(names, i, v, path).contains(
            path + ": missing required property "@ + debug_text(names[k]),
        ),
    decreases k - i,
{
    let m = path + ": missing required property "@ + debug_text(names[k]);
    let here = if field(v, names[i]) is None {
        seq![path + ": missing required property "@ + debug_text(names[i])]
    } else {
        Seq::<Seq<char>>::empty()
    };
    let rest = missing_from(names, i + 1, v, path);
    assert(missing_from(names, i, v, path) == here + rest);
    if i == k {
        assert((here + rest)[0] == m);
    } else {
        lemma_missing_named(names, i + 1, v, path, k);
        let w = choose|w: int| 0 <= w < rest.len() && rest[w] == m;
        assert((here + rest)[here.len() + w] == m);
    }
}

/// Every required property an object lacks is named among its problems: for an object of
/// the allowed values and type, each name `required` lists that is not a member gives the
/// problem `<path>: missing required property <name>`, so an answer that lacks any of them
/// is never without a problem.
pub proof fn law_every_missing_required_name_is_a_problem(
    s: Json,
    v: Json,
    path: Seq<char>,
    k: int,
)
    requires
        s is Object,
        v is Object,
        enum_problem(s, v, path) is None,
        type_problem_at(s, v, path) is None,
        0 <= k < required_names(s).len(),
        field(v, required_names(s)[k]) is None,
    ensures
        problems_of(s, v, path).contains(
            path + ": missing required property "@ + debug_text(required_names(s)[k]),
        ),
        problems_of(s, v, path).len() > 0,
{
    let names = required_names(s);
    let m = path + ": missing required property "@ + debug_text(names[k]);
    lemma_missing_named(names, 0, v, path, k);
    let miss = missing_from(names, 0, v, path);
    let mp = member_problems(s, v->Object_0@, v, path);
    let w = choose|w: int| 0 <= w < miss.len() && miss[w] == m;
    let rest = if field(s, "additionalProperties"@) == Some(Json::Bool(false)) {
        unexpected_from(v->Object_0@, 0, props_of(s), path)
    } else {
        Seq::<Seq<char>>::empty()
    };
    assert(mp == miss + rest);
    assert(mp[w] == m);
    let all = problems_of(s, v, path);
    let tail = match field(s, "properties"@) {
        Some(p) => match p {
            Json::Object(pm) => props_problems(pm@, 0, v, path),
            _ => Seq::empty(),
        },
        None => Seq::empty(),
    };
    assert(all == mp + tail);
    assert(all[w] == m);
}

} // verus!
