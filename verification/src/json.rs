//! JSON values as plain data, and the reading of JSON text into them.
//!
//! The text is read by `serde_json`; what it reads is held here as a tree of plain values, so
//! that the logic that walks a provider's answer can be verified.
use vstd::prelude::*;

use crate::text::chars_of;

verus! {

/// A JSON number: its text as `serde_json` writes it, and the integer it is when it is one.
#[derive(Debug)]
pub struct JsonNumber {
    pub text: String,
    /// The number, when it is a whole number from 0 to `u64::MAX`.
    pub unsigned: Option<u64>,
    /// The number, when it is a whole number that fits an `i64`.
    pub signed: Option<i64>,
}

/// A JSON value. An object's members are held in a list: one read from text comes in
/// `serde_json`'s order (sorted by key, each key once), and one the library builds keeps the
/// order it was built in.
#[derive(Debug)]
pub enum Json {
    Null,
    Bool(bool),
    Number(JsonNumber),
    Str(String),
    Array(Vec<Json>),
    Object(Vec<(String, Json)>),
}

/// The value of the first member named `key`, from the `i`-th member on.
pub open spec fn member(m: Seq<(String, Json)>, key: Seq<char>, i: int) -> Option<Json>
    decreases m.len() - i,
{
    if i < 0 || i >= m.len() {
        None
    } else if m[i].0@ == key {
        Some(m[i].1)
    } else {
        member(m, key, i + 1)
    }
}

/// The member `key` of an object (`Value::get` with a string index).
pub open spec fn field(j: Json, key: Seq<char>) -> Option<Json> {
    match j {
        Json::Object(m) => member(m@, key, 0),
        _ => None,
    }
}

/// The text of a string (`Value::as_str`).
pub open spec fn text_of(j: Json) -> Option<Seq<char>> {
    match j {
        Json::Str(s) => Some(s@),
        _ => None,
    }
}

/// The items of an array (`Value::as_array`).
pub open spec fn items_of(j: Json) -> Option<Seq<Json>> {
    match j {
        Json::Array(v) => Some(v@),
        _ => None,
    }
}

/// The value of `true` or `false` (`Value::as_bool`).
pub open spec fn bool_of(j: Json) -> Option<bool> {
    match j {
        Json::Bool(b) => Some(b),
        _ => None,
    }
}

/// The number, when it is a whole number that fits a `u64` (`Value::as_u64`).
pub open spec fn u64_of(j: Json) -> Option<u64> {
    match j {
        Json::Number(n) => n.unsigned,
        _ => None,
    }
}

/// The text of the member `key`, when it is a string.
pub open spec fn str_field(j: Json, key: Seq<char>) -> Option<Seq<char>> {
    match field(j, key) {
        Some(v) => text_of(v),
        None => None,
    }
}

/// The number in the member `key`, when it is a whole number that fits a `u64`.
pub open spec fn u64_field(j: Json, key: Seq<char>) -> Option<u64> {
    match field(j, key) {
        Some(v) => u64_of(v),
        None => None,
    }
}

/// The items of the member `key`, when it is an array.
pub open spec fn items_field(j: Json, key: Seq<char>) -> Option<Seq<Json>> {
    match field(j, key) {
        Some(v) => items_of(v),
        None => None,
    }
}

impl Json {
    /// The member `key`, when this is an object that has one.
    pub fn get(&self, key: &str) -> (r: Option<&Json>)
        ensures
            match r {
                Some(v) => field(*self, key@) == Some(*v),
                None => field(*self, key@) is None,
            },
    {
        match self {
            Json::Object(m) => {
                let k = chars_of(key);
                let mut i: usize = 0;
                while i < m.len()
                    invariant
                        i <= m@.len(),
                        k@ == key@,
                        field(*self, key@) == member(m@, key@, 0),
                        member(m@, key@, i as int) == member(m@, key@, 0),
                    decreases m@.len() - i,
                {
                    let entry = &m[i];
                    assert(*entry == m@[i as int]);
                    let here = chars_of(entry.0.as_str());
                    if crate::text::chars_eq(&here, &k) {
                        assert(m@[i as int].0@ == key@);
                        return Some(&entry.1);
                    }
                    i = i + 1;
                }
                None
            },
            _ => None,
        }
    }

    /// The text, when this is a string.
    pub fn as_str(&self) -> (r: Option<&String>)
        ensures
            match r {
                Some(s) => text_of(*self) == Some(s@),
                None => text_of(*self) is None,
            },
    {
        match self {
            Json::Str(s) => Some(s),
            _ => None,
        }
    }

    /// The items, when this is an array.
    pub fn as_array(&self) -> (r: Option<&Vec<Json>>)
        ensures
            match r {
                Some(v) => items_of(*self) == Some(v@),
                None => items_of(*self) is None,
            },
    {
        match self {
            Json::Array(v) => Some(v),
            _ => None,
        }
    }

    /// The number, when this is a whole number that fits a `u64`.
    pub fn as_u64(&self) -> (r: Option<u64>)
        ensures
            r == u64_of(*self),
    {
        match self {
            Json::Number(n) => n.unsigned,
            _ => None,
        }
    }

    /// The value, when this is `true` or `false`.
    pub fn as_bool(&self) -> (r: Option<bool>)
        ensures
            r == bool_of(*self),
    {
        match self {
            Json::Bool(b) => Some(*b),
            _ => None,
        }
    }

    /// Whether this is an object.
    pub fn is_object(&self) -> (b: bool)
        ensures
            b == (*self is Object),
    {
        match self {
            Json::Object(_) => true,
            _ => false,
        }
    }

    /// Whether this is `null`.
    pub fn is_null(&self) -> (b: bool)
        ensures
            b == (*self is Null),
    {
        match self {
            Json::Null => true,
            _ => false,
        }
    }

    /// The text of the member `key`, when it is a string.
    pub fn str_at(&self, key: &str) -> (r: Option<&String>)
        ensures
            match r {
                Some(s) => str_field(*self, key@) == Some(s@),
                None => str_field(*self, key@) is None,
            },
    {
        match self.get(key) {
            Some(v) => v.as_str(),
            None => None,
        }
    }

    /// The number in the member `key`, when it is a whole number that fits a `u64`.
    pub fn u64_at(&self, key: &str) -> (r: Option<u64>)
        ensures
            r == u64_field(*self, key@),
    {
        match self.get(key) {
            Some(v) => v.as_u64(),
            None => None,
        }
    }

    /// The items of the member `key`, when it is an array.
    pub fn array_at(&self, key: &str) -> (r: Option<&Vec<Json>>)
        ensures
            match r {
                Some(v) => items_field(*self, key@) == Some(v@),
                None => items_field(*self, key@) is None,
            },
    {
        match self.get(key) {
            Some(v) => v.as_array(),
            None => None,
        }
    }
}

// =======================================================================================
// Reading JSON text
// =======================================================================================

#[verifier::external_type_specification]
#[verifier::external_body]
pub struct ExJsonValue(serde_json::Value);

/// What `serde_json::from_str::<Value>` makes of a text, held as a `Json` tree (members of
/// an object in `serde_json`'s key order), or the error it reports, as `Display` writes it.
pub uninterp spec fn json_read(text: Seq<char>) -> Result<Json, Seq<char>>;

/// The tree of plain values a `serde_json::Value` holds.
///
/// Trusted: a change of representation, variant for variant; a number keeps its `Display`
/// text and what `as_u64` and `as_i64` give.
#[verifier::external_body]
fn from_value(v: serde_json::Value) -> Json {
    match v {
        serde_json::Value::Null => Json::Null,
        serde_json::Value::Bool(b) => Json::Bool(b),
        serde_json::Value::Number(n) => Json::Number(
            JsonNumber { text: n.to_string(), unsigned: n.as_u64(), signed: n.as_i64() },
        ),
        serde_json::Value::String(s) => Json::Str(s),
        serde_json::Value::Array(a) => Json::Array(a.into_iter().map(from_value).collect()),
        serde_json::Value::Object(m) => Json::Object(
            m.into_iter().map(|(k, x)| (k, from_value(x))).collect(),
        ),
    }
}

/// `serde_json::from_str::<serde_json::Value>`.
///
/// Trusted: the result is whatever `serde_json` reads from this text and nothing else (it
/// depends on the text alone); the contract names it and says no more about it.
#[verifier::external_body]
fn read_json(text: &str) -> (r: Result<Json, String>)
    ensures
        match r {
            Ok(j) => json_read(text@) == Ok::<Json, Seq<char>>(j),
            Err(e) => json_read(text@) == Err::<Json, Seq<char>>(e@),
        },
{
    match serde_json::from_str::<serde_json::Value>(text) {
        Ok(v) => Ok(from_value(v)),
        Err(e) => Err(e.to_string()),
    }
}

impl Json {
    /// Read JSON text, or say why it is not JSON.
    pub fn parse(text: &str) -> (r: Result<Json, String>)
        ensures
            match r {
                Ok(j) => json_read(text@) == Ok::<Json, Seq<char>>(j),
                Err(e) => json_read(text@) == Err::<Json, Seq<char>>(e@),
            },
    {
        read_json(text)
    }
}

// =======================================================================================
// Building values
// =======================================================================================

/// Whether `j` is the string `t`.
pub open spec fn is_text(j: Json, t: Seq<char>) -> bool {
    text_of(j) == Some(t)
}

/// Whether `j` is the whole number `n`, written in decimal.
pub open spec fn is_count(j: Json, n: u64) -> bool {
    &&& j is Number
    &&& j->Number_0.unsigned == Some(n)
    &&& j->Number_0.text@ == crate::text::decimal(n as nat)
    &&& n <= i64::MAX ==> j->Number_0.signed == Some(n as i64)
    &&& n > i64::MAX ==> j->Number_0.signed is None
}

/// Whether `j` is an object whose members are exactly these keys, in this order.
pub open spec fn has_keys(j: Json, keys: Seq<Seq<char>>) -> bool {
    &&& j is Object
    &&& j->Object_0@.len() == keys.len()
    &&& forall|i: int| 0 <= i < keys.len() ==> #[trigger] j->Object_0@[i].0@ == keys[i]
}

/// The value of the `i`-th member of an object.
pub open spec fn value_at(j: Json, i: int) -> Json {
    j->Object_0@[i].1
}

/// A string value.
pub fn text(s: &str) -> (j: Json)
    ensures
        is_text(j, s@),
{
    Json::Str(s.to_owned())
}

/// A whole number.
pub fn count(n: u64) -> (j: Json)
    ensures
        is_count(j, n),
{
    let digits = crate::text::decimal_chars(n);
    let signed = if n <= i64::MAX as u64 {
        Some(n as i64)
    } else {
        None
    };
    Json::Number(JsonNumber { text: crate::text::string_of(&digits), unsigned: Some(n), signed })
}

// =======================================================================================
// The size of a tree, and equality of values
// =======================================================================================

/// The number of values in a tree, members' names counted as well: it shrinks from a value
/// to every value inside it.
pub open spec fn size(j: Json) -> nat
    decreases j, 0nat,
{
    match j {
        Json::Array(v) => {
            proof {
                assert(decreases_to!(j => j->Array_0));
            }
            1 + sizes_from(v@, 0)
        },
        Json::Object(m) => {
            proof {
                assert(decreases_to!(j => j->Object_0));
            }
            1 + msizes_from(m@, 0)
        },
        _ => 1,
    }
}

/// The sizes of the items of an array from the `i`-th on, added up.
pub open spec fn sizes_from(s: Seq<Json>, i: int) -> nat
    decreases s, s.len() - i,
{
    if 0 <= i < s.len() {
        size(s[i]) + sizes_from(s, i + 1)
    } else {
        0
    }
}

/// The sizes of the members of an object from the `i`-th on, added up, one for each name.
pub open spec fn msizes_from(m: Seq<(String, Json)>, i: int) -> nat
    decreases m, m.len() - i,
{
    if 0 <= i < m.len() {
        proof {
            assert(decreases_to!(m => m[i]));
            assert(decreases_to!(m[i] => m[i].1));
        }
        1 + size(m[i].1) + msizes_from(m, i + 1)
    } else {
        0
    }
}

/// A member's value is smaller than the members from any earlier place on.
pub proof fn lemma_member_smaller(m: Seq<(String, Json)>, i: int, k: int)
    requires
        0 <= i <= k < m.len(),
    ensures
        size(m[k].1) < msizes_from(m, i),
    decreases k - i,
{
    if i < k {
        lemma_member_smaller(m, i + 1, k);
    }
}

/// The value found under a name is smaller than the object.
pub proof fn lemma_field_smaller(j: Json, key: Seq<char>)
    ensures
        field(j, key) matches Some(x) ==> size(x) < size(j),
{
    if let Json::Object(m) = j {
        lemma_found_smaller(m@, key, 0);
    }
}

proof fn lemma_found_smaller(m: Seq<(String, Json)>, key: Seq<char>, i: int)
    requires
        0 <= i,
    ensures
        member(m, key, i) matches Some(x) ==> size(x) < msizes_from(m, i),
    decreases m.len() - i,
{
    if i < m.len() {
        lemma_found_smaller(m, key, i + 1);
    }
}

/// Whether two values are equal as JSON values: the same kind, and the same number (by its
/// text), text, items or members in order.
pub open spec fn same(a: Json, b: Json) -> bool
    decreases a, 0nat,
{
    match a {
        Json::Null => b is Null,
        Json::Bool(x) => b matches Json::Bool(y) && x == y,
        Json::Number(x) => b matches Json::Number(y) && x.text@ == y.text@,
        Json::Str(x) => b matches Json::Str(y) && x@ == y@,
        Json::Array(x) => {
            proof {
                assert(decreases_to!(a => a->Array_0));
            }
            b matches Json::Array(y) && x@.len() == y@.len() && same_items(x@, y@, 0)
        },
        Json::Object(x) => {
            proof {
                assert(decreases_to!(a => a->Object_0));
            }
            b matches Json::Object(y) && x@.len() == y@.len() && same_members(x@, y@, 0)
        },
    }
}

/// Whether the items of two arrays of one length are equal from the `i`-th on.
pub open spec fn same_items(x: Seq<Json>, y: Seq<Json>, i: int) -> bool
    decreases x, x.len() - i,
{
    if 0 <= i < x.len() {
        same(x[i], y[i]) && same_items(x, y, i + 1)
    } else {
        true
    }
}

/// Whether the members of two objects of one length are equal from the `i`-th on.
pub open spec fn same_members(x: Seq<(String, Json)>, y: Seq<(String, Json)>, i: int) -> bool
    decreases x, x.len() - i,
{
    if 0 <= i < x.len() {
        proof {
            assert(decreases_to!(x => x[i]));
            assert(decreases_to!(x[i] => x[i].1));
        }
        x[i].0@ == y[i].0@ && same(x[i].1, y[i].1) && same_members(x, y, i + 1)
    } else {
        true
    }
}

/// Whether two values are equal as JSON values.
pub fn json_eq(a: &Json, b: &Json) -> (r: bool)
    ensures
        r == same(*a, *b),
    decreases a,
{
    match (a, b) {
        (Json::Null, Json::Null) => true,
        (Json::Bool(x), Json::Bool(y)) => *x == *y,
        (Json::Number(x), Json::Number(y)) => {
            let p = chars_of(x.text.as_str());
            let q = chars_of(y.text.as_str());
            crate::text::chars_eq(&p, &q)
        },
        (Json::Str(x), Json::Str(y)) => {
            let p = chars_of(x.as_str());
            let q = chars_of(y.as_str());
            crate::text::chars_eq(&p, &q)
        },
        (Json::Array(x), Json::Array(y)) => {
            if x.len() != y.len() {
                return false;
            }
            let mut i: usize = 0;
            while i < x.len()
                invariant
                    i <= x@.len() == y@.len(),
                    *a == Json::Array(*x),
                    same(*a, *b) == same_items(x@, y@, 0),
                    same_items(x@, y@, 0) == same_items(x@, y@, i as int),
                decreases x@.len() - i,
            {
                proof {
                    assert(decreases_to!(*a => a->Array_0));
                    assert(decreases_to!(*x => x@));
                    assert(decreases_to!(x@ => x@[i as int]));
                }
                if !json_eq(&x[i], &y[i]) {
                    return false;
                }
                i = i + 1;
            }
            true
        },
        (Json::Object(x), Json::Object(y)) => {
            if x.len() != y.len() {
                return false;
            }
            let mut i: usize = 0;
            while i < x.len()
                invariant
                    i <= x@.len() == y@.len(),
                    *a == Json::Object(*x),
                    same(*a, *b) == same_members(x@, y@, 0),
                    same_members(x@, y@, 0) == same_members(x@, y@, i as int),
                decreases x@.len() - i,
            {
                proof {
                    assert(decreases_to!(*a => a->Object_0));
                    assert(decreases_to!(*x => x@));
                    assert(decreases_to!(x@ => x@[i as int]));
                    assert(decreases_to!(x@[i as int] => x@[i as int].1));
                }
                let p = chars_of(x[i].0.as_str());
                let q = chars_of(y[i].0.as_str());
                assert(x[i as int].0@ == x@[i as int].0@ && y[i as int].0@ == y@[i as int].0@);
                if !crate::text::chars_eq(&p, &q) {
                    return false;
                }
                if !json_eq(&x[i].1, &y[i].1) {
                    return false;
                }
                i = i + 1;
            }
            true
        },
        _ => false,
    }
}

// =======================================================================================
// Writing JSON text
// =======================================================================================

/// What `serde_json` writes for a value in its compact form (the `Display` of a `Value`).
pub uninterp spec fn json_text(j: Json) -> Seq<char>;

/// What `serde_json::to_string_pretty` writes for a value, or `None` where it reports an
/// error.
pub uninterp spec fn json_pretty(j: Json) -> Option<Seq<char>>;

/// The `serde_json::Value` a tree of plain values stands for.
///
/// Trusted: a change of representation, variant for variant; a number is read back from its
/// text (`Null` where the text is not one `serde_json` reads).
#[verifier::external_body]
fn to_value(j: &Json) -> serde_json::Value {
    match j {
        Json::Null => serde_json::Value::Null,
        Json::Bool(b) => serde_json::Value::Bool(*b),
        Json::Number(n) => match n.text.parse::<serde_json::Number>() {
            Ok(x) => serde_json::Value::Number(x),
            Err(_) => serde_json::Value::Null,
        },
        Json::Str(s) => serde_json::Value::String(s.clone()),
        Json::Array(a) => serde_json::Value::Array(a.iter().map(to_value).collect()),
        Json::Object(m) => serde_json::Value::Object(
            m.iter().map(|(k, x)| (k.clone(), to_value(x))).collect(),
        ),
    }
}

/// The compact JSON text of a value (`Display` for `serde_json::Value`).
///
/// Trusted: the text depends on the value alone, and it is named, not spelled out; the one
/// fact stated of it is that it holds no line break, since the compact writer puts no
/// whitespace between tokens and escapes `\n` and `\r` inside strings (`ESCAPE` in
/// `ser.rs`).
#[verifier::external_body]
pub(crate) fn compact_text(j: &Json) -> (s: String)
    ensures
        s@ == json_text(*j),
        crate::text::no_break(s@),
{
    to_value(j).to_string()
}

/// `serde_json::to_string_pretty` of a value.
///
/// Trusted: the text, or the failure, depends on the value alone; the contract names it and
/// says no more.
#[verifier::external_body]
pub(crate) fn pretty_text(j: &Json) -> (s: Option<String>)
    ensures
        match s {
            Some(t) => json_pretty(*j) == Some(t@),
            None => json_pretty(*j) is None,
        },
{
    serde_json::to_string_pretty(&to_value(j)).ok()
}

/// A copy of a value.
pub fn copy_json(j: &Json) -> (r: Json)
    ensures
        same(r, *j),
    decreases j,
{
    match j {
        Json::Null => Json::Null,
        Json::Bool(b) => Json::Bool(*b),
        Json::Number(n) => Json::Number(
            JsonNumber {
                text: crate::text::string_of(&chars_of(n.text.as_str())),
                unsigned: n.unsigned,
                signed: n.signed,
            },
        ),
        Json::Str(s) => Json::Str(crate::text::string_of(&chars_of(s.as_str()))),
        Json::Array(x) => {
            let mut out: Vec<Json> = Vec::new();
            let mut i: usize = 0;
            while i < x.len()
                invariant
                    i <= x@.len(),
                    out@.len() == i,
                    *j == Json::Array(*x),
                    forall|k: int| 0 <= k < i ==> same(#[trigger] out@[k], x@[k]),
                decreases x@.len() - i,
            {
                proof {
                    assert(decreases_to!(*j => j->Array_0));
                    assert(decreases_to!(*x => x@));
                    assert(decreases_to!(x@ => x@[i as int]));
                }
                let c = copy_json(&x[i]);
                out.push(c);
                i = i + 1;
            }
            proof {
                lemma_same_items_all(out@, x@, 0);
            }
            Json::Array(out)
        },
        Json::Object(x) => {
            let mut out: Vec<(String, Json)> = Vec::new();
            let mut i: usize = 0;
            while i < x.len()
                invariant
                    i <= x@.len(),
                    out@.len() == i,
                    *j == Json::Object(*x),
                    forall|k: int|
                        0 <= k < i ==> (#[trigger] out@[k]).0@ == x@[k].0@ && same(
                            out@[k].1,
                            x@[k].1,
                        ),
                decreases x@.len() - i,
            {
                proof {
                    assert(decreases_to!(*j => j->Object_0));
                    assert(decreases_to!(*x => x@));
                    assert(decreases_to!(x@ => x@[i as int]));
                    assert(decreases_to!(x@[i as int] => x@[i as int].1));
                }
                let name = crate::text::string_of(&chars_of(x[i].0.as_str()));
                let c = copy_json(&x[i].1);
                out.push((name, c));
                i = i + 1;
            }
            proof {
                lemma_same_members_all(out@, x@, 0);
            }
            Json::Object(out)
        },
    }
}

proof fn lemma_same_items_all(x: Seq<Json>, y: Seq<Json>, i: int)
    requires
        0 <= i <= x.len(),
        forall|k: int| 0 <= k < x.len() ==> same(#[trigger] x[k], y[k]),
    ensures
        same_items(x, y, i),
    decreases x.len() - i,
{
    if i < x.len() {
        assert(same(x[i], y[i]));
        lemma_same_items_all(x, y, i + 1);
    }
}

proof fn lemma_same_members_all(x: Seq<(String, Json)>, y: Seq<(String, Json)>, i: int)
    requires
        0 <= i <= x.len(),
        forall|k: int| 0 <= k < x.len() ==> (#[trigger] x[k]).0@ == y[k].0@ && same(x[k].1, y[k].1),
    ensures
        same_members(x, y, i),
    decreases x.len() - i,
{
    if i < x.len() {
        assert(x[i].0@ == y[i].0@);
        lemma_same_members_all(x, y, i + 1);
    }
}

} // verus!
