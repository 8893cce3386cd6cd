//! NDJSON: one JSON object per line, for a program reading a run.
//!
//! Every line is one object, written by `serde_json` on one line whatever its text holds;
//! every object has a `type` from a small, closed vocabulary. Each line is stated here as the
//! members of its object, in the order `serde_json` writes them (sorted by key), and the line
//! itself is the compact text `serde_json` writes for that object.
use vstd::prelude::*;

use crate::event::{Event, EventView, Usage};
use crate::json::{compact_text, has_keys, is_count, is_text, json_text, same, Json};
use crate::text::{chars_of, no_break, ov, string_of};

verus! {

// =======================================================================================
// Objects as contracts speak of them
// =======================================================================================

/// A file inlined into a prompt: the token that named it, where it came from, and its size.
#[derive(Debug)]
pub struct Attachment {
    pub token: String,
    pub path: String,
    pub bytes: u64,
    pub lines: u64,
}

/// The value of a member of a line.
pub ghost enum Val {
    Text(Seq<char>),
    Count(u64),
    Flag(bool),
    Null,
    /// A JSON value carried as it is.
    Raw(Json),
    /// The files inlined into a prompt, each as its own object.
    Files(Seq<Attachment>),
}

/// The members of a line's object, in order.
pub type Frame = Seq<(Seq<char>, Val)>;

/// Whether `j` is the object for a file inlined into a prompt:
/// `{"bytes","lines","path","token"}`.
pub open spec fn is_attachment(j: Json, a: Attachment) -> bool {
    &&& has_keys(j, seq!["bytes"@, "lines"@, "path"@, "token"@])
    &&& is_count(j->Object_0@[0].1, a.bytes)
    &&& is_count(j->Object_0@[1].1, a.lines)
    &&& is_text(j->Object_0@[2].1, a.path@)
    &&& is_text(j->Object_0@[3].1, a.token@)
}

/// Whether `j` is the value `v`.
pub open spec fn is_val(j: Json, v: Val) -> bool {
    match v {
        Val::Text(t) => is_text(j, t),
        Val::Count(n) => is_count(j, n),
        Val::Flag(b) => j matches Json::Bool(x) && x == b,
        Val::Null => j is Null,
        Val::Raw(x) => same(j, x),
        Val::Files(a) => j matches Json::Array(l) && l@.len() == a.len() && forall|i: int|
            0 <= i < l@.len() ==> is_attachment(#[trigger] l@[i], a[i]),
    }
}

/// Whether members are those of the frame, name for name and value for value.
pub open spec fn members_are(m: Seq<(String, Json)>, f: Frame) -> bool {
    &&& m.len() == f.len()
    &&& forall|i: int|
        0 <= i < m.len() ==> (#[trigger] m[i]).0@ == f[i].0 && is_val(m[i].1, f[i].1)
}

/// Whether `j` is the object of the frame.
pub open spec fn is_frame(j: Json, f: Frame) -> bool {
    j matches Json::Object(m) && members_are(m@, f)
}

/// Whether `l` is a line for the frame: the compact text `serde_json` writes for its object.
pub open spec fn line_of(l: Seq<char>, f: Frame) -> bool {
    exists|j: Json| #[trigger] is_frame(j, f) && l == json_text(j)
}

/// A member.
fn kv(key: &str, value: Json) -> (m: (String, Json))
    ensures
        m.0@ == key@,
        m.1 == value,
{
    (key.to_owned(), value)
}

/// The line for an object of these members.
fn emit(m: Vec<(String, Json)>, Ghost(f): Ghost<Frame>) -> (s: String)
    requires
        members_are(m@, f),
    ensures
        line_of(s@, f),
        no_break(s@),
{
    let j = Json::Object(m);
    let s = compact_text(&j);
    assert(is_frame(j, f));
    s
}

/// A text, or `null`.
pub open spec fn text_or_null(s: Option<Seq<char>>) -> Val {
    match s {
        Some(t) => Val::Text(t),
        None => Val::Null,
    }
}

fn text_or_null_json(s: &Option<String>) -> (j: Json)
    ensures
        is_val(j, text_or_null(ov(*s))),
{
    match s {
        Some(t) => crate::json::text(t.as_str()),
        None => Json::Null,
    }
}

// =======================================================================================
// The lines
// =======================================================================================

/// A line carrying one text: `message.delta`, `reasoning.delta`, `message.completed`.
pub open spec fn text_line(kind: Seq<char>, text: Seq<char>) -> Frame {
    seq![("text"@, Val::Text(text)), ("type"@, Val::Text(kind))]
}

/// A line carrying one message: `warning`, `error`.
pub open spec fn message_line(kind: Seq<char>, message: Seq<char>) -> Frame {
    seq![("message"@, Val::Text(message)), ("type"@, Val::Text(kind))]
}

pub open spec fn tool_started_line(id: Seq<char>, name: Seq<char>) -> Frame {
    seq![("id"@, Val::Text(id)), ("name"@, Val::Text(name)), ("type"@, Val::Text("tool.started"@))]
}

pub open spec fn tool_args_line(id: Seq<char>, name: Option<Seq<char>>, args: Seq<char>) -> Frame {
    seq![
        ("arguments"@, Val::Text(args)),
        ("id"@, Val::Text(id)),
        ("name"@, text_or_null(name)),
        ("type"@, Val::Text("tool.args"@)),
    ]
}

pub open spec fn tool_completed_line(
    id: Seq<char>,
    name: Option<Seq<char>>,
    ok: bool,
    output: Seq<char>,
) -> Frame {
    seq![
        ("id"@, Val::Text(id)),
        ("name"@, text_or_null(name)),
        ("ok"@, Val::Flag(ok)),
        ("output"@, Val::Text(output)),
        ("type"@, Val::Text("tool.completed"@)),
    ]
}

/// The total a `usage` line reports (saturating).
pub open spec fn total_spec(u: Usage) -> u64 {
    if u.prompt_tokens + u.completion_tokens <= u64::MAX {
        (u.prompt_tokens + u.completion_tokens) as u64
    } else {
        u64::MAX
    }
}

/// The cache split, as a member, only when the provider reported one.
pub open spec fn hit_members(hit: Option<u64>) -> Frame {
    match hit {
        Some(h) => seq![("cache_hit_tokens"@, Val::Count(h))],
        None => Seq::empty(),
    }
}

pub open spec fn usage_line(u: Usage) -> Frame {
    hit_members(u.cache_hit_tokens) + seq![
        ("completion_tokens"@, Val::Count(u.completion_tokens)),
        ("prompt_tokens"@, Val::Count(u.prompt_tokens)),
        ("total_tokens"@, Val::Count(total_spec(u))),
        ("type"@, Val::Text("usage"@)),
    ]
}

pub open spec fn status_line(text: Seq<char>, restarted: bool) -> Frame {
    seq![
        ("restarted"@, Val::Flag(restarted)),
        ("text"@, Val::Text(text)),
        ("type"@, Val::Text("status"@)),
    ]
}

fn text_line_of(kind: &str, text: &str) -> (s: String)
    ensures
        line_of(s@, text_line(kind@, text@)),
        no_break(s@),
{
    let mut m: Vec<(String, Json)> = Vec::new();
    m.push(kv("text", crate::json::text(text)));
    m.push(kv("type", crate::json::text(kind)));
    emit(m, Ghost(text_line(kind@, text@)))
}

fn message_line_of(kind: &str, message: &str) -> (s: String)
    ensures
        line_of(s@, message_line(kind@, message@)),
        no_break(s@),
{
    let mut m: Vec<(String, Json)> = Vec::new();
    m.push(kv("message", crate::json::text(message)));
    m.push(kv("type", crate::json::text(kind)));
    emit(m, Ghost(message_line(kind@, message@)))
}

fn usage_line_of(u: &Usage) -> (s: String)
    ensures
        line_of(s@, usage_line(*u)),
        no_break(s@),
{
    let mut m: Vec<(String, Json)> = Vec::new();
    match u.cache_hit_tokens {
        Some(h) => m.push(kv("cache_hit_tokens", crate::json::count(h))),
        None => {},
    }
    m.push(kv("completion_tokens", crate::json::count(u.completion_tokens)));
    m.push(kv("prompt_tokens", crate::json::count(u.prompt_tokens)));
    m.push(kv("total_tokens", crate::json::count(u.total())));
    m.push(kv("type", crate::json::text("usage")));
    emit(m, Ghost(usage_line(*u)))
}

fn status_line_of(text: &str, restarted: bool) -> (s: String)
    ensures
        line_of(s@, status_line(text@, restarted)),
        no_break(s@),
{
    let mut m: Vec<(String, Json)> = Vec::new();
    m.push(kv("restarted", Json::Bool(restarted)));
    m.push(kv("text", crate::json::text(text)));
    m.push(kv("type", crate::json::text("status")));
    emit(m, Ghost(status_line(text@, restarted)))
}

// =======================================================================================
// The sink
// =======================================================================================

/// Turns the events of one turn into lines. It holds the answer so far (a finished answer is
/// written whole, from its fragments) and the tool name behind each call id.
#[derive(Debug)]
pub struct Sink {
    answer: String,
    /// Call ids and the names of their tools; each id once.
    names: Vec<(String, String)>,
}

pub ghost struct SinkView {
    pub answer: Seq<char>,
    pub names: Seq<(Seq<char>, Seq<char>)>,
}

pub open spec fn name_views(v: Seq<(String, String)>) -> Seq<(Seq<char>, Seq<char>)> {
    v.map_values(|e: (String, String)| (e.0@, e.1@))
}

impl View for Sink {
    type V = SinkView;

    closed spec fn view(&self) -> SinkView {
        SinkView { answer: self.answer@, names: name_views(self.names@) }
    }
}

/// Where the name for `id` is, from the `i`-th entry on.
pub open spec fn name_pos(names: Seq<(Seq<char>, Seq<char>)>, id: Seq<char>, i: int) -> Option<int>
    decreases names.len() - i,
{
    if i < 0 || i >= names.len() {
        None
    } else if names[i].0 == id {
        Some(i)
    } else {
        name_pos(names, id, i + 1)
    }
}

/// The name of the tool behind `id`, when a start named one.
pub open spec fn name_of(names: Seq<(Seq<char>, Seq<char>)>, id: Seq<char>) -> Option<Seq<char>> {
    match name_pos(names, id, 0) {
        Some(p) => Some(names[p].1),
        None => None,
    }
}

/// The names with `id` naming `name` (in place of what it named before).
pub open spec fn with_name(names: Seq<(Seq<char>, Seq<char>)>, id: Seq<char>, name: Seq<char>) -> Seq<
    (Seq<char>, Seq<char>),
> {
    match name_pos(names, id, 0) {
        Some(p) => names.update(p, (id, name)),
        None => names.push((id, name)),
    }
}

/// The names without `id`.
pub open spec fn without_name(names: Seq<(Seq<char>, Seq<char>)>, id: Seq<char>) -> Seq<
    (Seq<char>, Seq<char>),
> {
    match name_pos(names, id, 0) {
        Some(p) => names.remove(p),
        None => names,
    }
}

/// What the sink holds after an event, and the line for it (none for a peer's message,
/// which no frame describes).
pub open spec fn line_spec(s: SinkView, e: EventView) -> (SinkView, Option<Frame>) {
    match e {
        EventView::Text(t) => (
            SinkView { answer: s.answer + t, ..s },
            Some(text_line("message.delta"@, t)),
        ),
        EventView::Reasoning(t) => (s, Some(text_line("reasoning.delta"@, t))),
        EventView::Peer { .. } => (s, None),
        EventView::ToolStart { id, name } => (
            SinkView { names: with_name(s.names, id, name), ..s },
            Some(tool_started_line(id, name)),
        ),
        EventView::ToolArgs { id, args } => (
            s,
            Some(tool_args_line(id, name_of(s.names, id), args)),
        ),
        EventView::ToolResult { id, output, ok } => (
            SinkView { names: without_name(s.names, id), ..s },
            Some(tool_completed_line(id, name_of(s.names, id), ok, output)),
        ),
        EventView::Usage(u) => (s, Some(usage_line(u))),
        EventView::Warning(m) => (s, Some(message_line("warning"@, m))),
        EventView::Status { text, restarted } => (s, Some(status_line(text, restarted))),
        EventView::Done => (
            SinkView { answer: Seq::<char>::empty(), ..s },
            Some(text_line("message.completed"@, s.answer)),
        ),
    }
}

impl Sink {
    pub fn new() -> (s: Sink)
        ensures
            s@ == (SinkView { answer: Seq::<char>::empty(), names: Seq::<(Seq<char>, Seq<char>)>::empty() }),
    {
        let s = Sink { answer: String::new(), names: Vec::new() };
        assert(name_views(s.names@) =~= Seq::<(Seq<char>, Seq<char>)>::empty());
        s
    }

    /// What the turn in flight has said so far, without taking it.
    pub fn answer_so_far(&self) -> (a: &str)
        ensures
            a@ == self@.answer,
    {
        self.answer.as_str()
    }

    /// Drop the answer in flight, because it is not in flight any more.
    pub fn forget_answer(&mut self)
        ensures
            final(self)@ == (SinkView { answer: Seq::<char>::empty(), ..old(self)@ }),
    {
        self.answer = String::new();
    }

    /// Where the name for `id` is.
    fn find_name(&self, id: &String) -> (r: Option<usize>)
        ensures
            match r {
                Some(p) => name_pos(self@.names, id@, 0) == Some(p as int) && p < self.names@.len(),
                None => name_pos(self@.names, id@, 0) is None,
            },
    {
        let ghost ns = name_views(self.names@);
        let target = chars_of(id.as_str());
        let mut i: usize = 0;
        while i < self.names.len()
            invariant
                i <= self.names@.len(),
                ns == name_views(self.names@),
                ns == self@.names,
                target@ == id@,
                name_pos(ns, id@, i as int) == name_pos(ns, id@, 0),
            decreases self.names@.len() - i,
        {
            let here = chars_of(self.names[i].0.as_str());
            assert(ns[i as int].0 == self.names@[i as int].0@);
            if crate::text::chars_eq(&here, &target) {
                return Some(i);
            }
            i = i + 1;
        }
        None
    }

    /// The name of the tool behind `id`.
    fn name_for(&self, id: &String) -> (r: Option<String>)
        ensures
            ov(r) == name_of(self@.names, id@),
    {
        match self.find_name(id) {
            Some(p) => {
                assert(self@.names[p as int].1 == self.names@[p as int].1@);
                Some(self.names[p].1.clone())
            },
            None => None,
        }
    }

    /// Remember the tool behind `id`.
    fn remember(&mut self, id: &String, name: &String)
        ensures
            final(self)@ == (SinkView { names: with_name(old(self)@.names, id@, name@), ..old(self)@ }),
    {
        let ghost n0 = self@.names;
        match self.find_name(id) {
            Some(p) => {
                self.names.set(p, (id.clone(), name.clone()));
                assert(name_views(self.names@) =~= n0.update(p as int, (id@, name@)));
            },
            None => {
                self.names.push((id.clone(), name.clone()));
                assert(name_views(self.names@) =~= n0.push((id@, name@)));
            },
        }
    }

    /// Forget the tool behind `id`, returning its name.
    fn forget(&mut self, id: &String) -> (r: Option<String>)
        ensures
            ov(r) == name_of(old(self)@.names, id@),
            final(self)@ == (SinkView { names: without_name(old(self)@.names, id@), ..old(self)@ }),
    {
        let ghost n0 = self@.names;
        match self.find_name(id) {
            Some(p) => {
                let (_, name) = self.names.remove(p);
                assert(name_views(self.names@) =~= n0.remove(p as int));
                Some(name)
            },
            None => None,
        }
    }

    /// The line for an event, or `None` for one no frame describes (a peer's message). Every
    /// line is one line: whatever text an event carries (newlines, carriage returns, quotes,
    /// control characters), the line holds no line feed and no carriage return, so a reader
    /// that splits lines never sees part of an object.
    pub fn line(&mut self, event: &Event) -> (r: Option<String>)
        ensures
            final(self)@ == line_spec(old(self)@, event@).0,
            match r {
                Some(l) => line_spec(old(self)@, event@).1 matches Some(f) && line_of(l@, f)
                    && no_break(l@),
                None => line_spec(old(self)@, event@).1 is None,
            },
    {
        match event {
            Event::Text(text) => {
                let mut a = chars_of(self.answer.as_str());
                crate::text::extend_str(&mut a, text.as_str());
                self.answer = string_of(&a);
                Some(text_line_of("message.delta", text.as_str()))
            },
            Event::Reasoning(text) => Some(text_line_of("reasoning.delta", text.as_str())),
            Event::Peer { .. } => None,
            Event::ToolStart { id, name } => {
                self.remember(id, name);
                let mut m: Vec<(String, Json)> = Vec::new();
                m.push(kv("id", crate::json::text(id.as_str())));
                m.push(kv("name", crate::json::text(name.as_str())));
                m.push(kv("type", crate::json::text("tool.started")));
                Some(emit(m, Ghost(tool_started_line(id@, name@))))
            },
            Event::ToolArgs { id, args } => {
                let name = self.name_for(id);
                let mut m: Vec<(String, Json)> = Vec::new();
                m.push(kv("arguments", crate::json::text(args.as_str())));
                m.push(kv("id", crate::json::text(id.as_str())));
                m.push(kv("name", text_or_null_json(&name)));
                m.push(kv("type", crate::json::text("tool.args")));
                Some(emit(m, Ghost(tool_args_line(id@, ov(name), args@))))
            },
            Event::ToolResult { id, output, ok } => {
                let name = self.forget(id);
                let mut m: Vec<(String, Json)> = Vec::new();
                m.push(kv("id", crate::json::text(id.as_str())));
                m.push(kv("name", text_or_null_json(&name)));
                m.push(kv("ok", Json::Bool(*ok)));
                m.push(kv("output", crate::json::text(output.as_str())));
                m.push(kv("type", crate::json::text("tool.completed")));
                Some(emit(m, Ghost(tool_completed_line(id@, ov(name), *ok, output@))))
            },
            Event::Usage(u) => Some(usage_line_of(u)),
            Event::Warning(message) => Some(message_line_of("warning", message.as_str())),
            Event::Status { text, restarted } => Some(status_line_of(text.as_str(), *restarted)),
            Event::Done => {
                let mut answer = String::new();
                std::mem::swap(&mut answer, &mut self.answer);
                Some(text_line_of("message.completed", answer.as_str()))
            },
        }
    }
}

// =======================================================================================
// The lines around a turn
// =======================================================================================

/// The first line of a run: which session it writes to (`null` when it could not make one),
/// where it runs, and which model.
pub open spec fn session_started_line(session: Option<Seq<char>>, cwd: Seq<char>, model: Seq<char>) -> Frame {
    seq![
        ("cwd"@, Val::Text(cwd)),
        ("model"@, Val::Text(model)),
        ("session"@, text_or_null(session)),
        ("type"@, Val::Text("session.started"@)),
    ]
}

/// The first line of a run. Paths are given as the text they are written with.
pub fn session_started(session: Option<&str>, cwd: &str, model: &str) -> (s: String)
    ensures
        line_of(
            s@,
            session_started_line(
                match session {
                    Some(p) => Some(p@),
                    None => None,
                },
                cwd@,
                model@,
            ),
        ),
        no_break(s@),
{
    let ghost sv: Option<Seq<char>> = match session {
        Some(p) => Some(p@),
        None => None,
    };
    let mut m: Vec<(String, Json)> = Vec::new();
    m.push(kv("cwd", crate::json::text(cwd)));
    m.push(kv("model", crate::json::text(model)));
    let session_value = match session {
        Some(p) => crate::json::text(p),
        None => Json::Null,
    };
    m.push(kv("session", session_value));
    m.push(kv("type", crate::json::text("session.started")));
    emit(m, Ghost(session_started_line(sv, cwd@, model@)))
}

pub open spec fn turn_started_line(prompt: Seq<char>) -> Frame {
    seq![("prompt"@, Val::Text(prompt)), ("type"@, Val::Text("turn.started"@))]
}

/// The line that starts a turn, with the prompt as the caller gave it.
pub fn turn_started(prompt: &str) -> (s: String)
    ensures
        line_of(s@, turn_started_line(prompt@)),
        no_break(s@),
{
    let mut m: Vec<(String, Json)> = Vec::new();
    m.push(kv("prompt", crate::json::text(prompt)));
    m.push(kv("type", crate::json::text("turn.started")));
    emit(m, Ghost(turn_started_line(prompt@)))
}

/// The start of a turn whose prompt had files inlined into it: the words as typed, and the
/// files that went in (the key is left out when nothing was inlined).
pub open spec fn turn_started_with_line(prompt: Seq<char>, attachments: Seq<Attachment>) -> Frame {
    if attachments.len() == 0 {
        turn_started_line(prompt)
    } else {
        seq![
            ("attachments"@, Val::Files(attachments)),
            ("prompt"@, Val::Text(prompt)),
            ("type"@, Val::Text("turn.started"@)),
        ]
    }
}

fn attachment_json(a: &Attachment) -> (j: Json)
    ensures
        is_attachment(j, *a),
{
    let mut m: Vec<(String, Json)> = Vec::new();
    m.push(kv("bytes", crate::json::count(a.bytes)));
    m.push(kv("lines", crate::json::count(a.lines)));
    m.push(kv("path", crate::json::text(a.path.as_str())));
    m.push(kv("token", crate::json::text(a.token.as_str())));
    Json::Object(m)
}

/// The line that starts a turn, with the files inlined into its prompt.
pub fn turn_started_with(prompt: &str, attachments: &[Attachment]) -> (s: String)
    ensures
        line_of(s@, turn_started_with_line(prompt@, attachments@)),
        no_break(s@),
{
    if attachments.len() == 0 {
        return turn_started(prompt);
    }
    let mut files: Vec<Json> = Vec::new();
    let mut i: usize = 0;
    while i < attachments.len()
        invariant
            i <= attachments@.len(),
            files@.len() == i,
            forall|k: int| 0 <= k < i ==> is_attachment(#[trigger] files@[k], attachments@[k]),
        decreases attachments@.len() - i,
    {
        files.push(attachment_json(&attachments[i]));
        i = i + 1;
    }
    let mut m: Vec<(String, Json)> = Vec::new();
    m.push(kv("attachments", Json::Array(files)));
    m.push(kv("prompt", crate::json::text(prompt)));
    m.push(kv("type", crate::json::text("turn.started")));
    emit(m, Ghost(turn_started_with_line(prompt@, attachments@)))
}

/// The answer the caller asked for, once it passed the schema: `{"attempts":n,"json":…,
/// "type":"result"}`.
pub open spec fn result_line(json: Json, attempts: nat) -> Frame {
    seq![
        ("attempts"@, Val::Count(attempts as u64)),
        ("json"@, Val::Raw(json)),
        ("type"@, Val::Text("result"@)),
    ]
}

/// The line that carries the answer the caller asked for, parsed and checked against the
/// schema; `attempts` is how many answers were asked for before one passed.
pub fn result(json: &Json, attempts: usize) -> (s: String)
    ensures
        line_of(s@, result_line(*json, attempts as nat)),
        no_break(s@),
{
    let mut m: Vec<(String, Json)> = Vec::new();
    m.push(kv("attempts", crate::json::count(attempts as u64)));
    m.push(kv("json", crate::json::copy_json(json)));
    m.push(kv("type", crate::json::text("result")));
    emit(m, Ghost(result_line(*json, attempts as nat)))
}

/// How a turn ended: with a finished answer, with an unfinished one because a limit was
/// reached, or cut short by the caller.
#[derive(Debug, Clone, Copy, PartialEq, Eq, Default)]
pub enum Outcome {
    #[default]
    Complete,
    Incomplete,
    Stopped,
}

pub open spec fn outcome_text(o: Outcome) -> Seq<char> {
    match o {
        Outcome::Complete => "complete"@,
        Outcome::Incomplete => "incomplete"@,
        Outcome::Stopped => "stopped"@,
    }
}

impl Outcome {
    pub fn as_str(self) -> (s: &'static str)
        ensures
            s@ == outcome_text(self),
    {
        match self {
            Outcome::Complete => "complete",
            Outcome::Incomplete => "incomplete",
            Outcome::Stopped => "stopped",
        }
    }
}

/// Which limit ended an unfinished turn.
#[derive(Debug, Clone, Copy, PartialEq, Eq)]
pub enum Limit {
    Steps,
    Seconds,
}

pub open spec fn limit_text(l: Limit) -> Seq<char> {
    match l {
        Limit::Steps => "steps"@,
        Limit::Seconds => "seconds"@,
    }
}

impl Limit {
    pub fn as_str(self) -> (s: &'static str)
        ensures
            s@ == limit_text(self),
    {
        match self {
            Limit::Steps => "steps",
            Limit::Seconds => "seconds",
        }
    }
}

/// The end of a turn: the tokens last reported (zero when none were), the cache split only
/// when one was reported, the outcome, how long it took, the retries, and which limit ran
/// out only for an unfinished turn whose limit is known.
pub open spec fn turn_completed_line(
    usage: Option<Usage>,
    outcome: Outcome,
    limit: Option<Limit>,
    duration_ms: u64,
    provider_retries: u32,
) -> Frame {
    let prompt: u64 = match usage {
        Some(u) => u.prompt_tokens,
        None => 0,
    };
    let completion: u64 = match usage {
        Some(u) => u.completion_tokens,
        None => 0,
    };
    let hit = match usage {
        Some(u) => u.cache_hit_tokens,
        None => None,
    };
    let reason = match limit {
        Some(l) => if outcome == Outcome::Incomplete {
            seq![("reason"@, Val::Text(limit_text(l)))]
        } else {
            Seq::empty()
        },
        None => Seq::empty(),
    };
    hit_members(hit) + seq![
        ("completion_tokens"@, Val::Count(completion)),
        ("duration_ms"@, Val::Count(duration_ms)),
        ("outcome"@, Val::Text(outcome_text(outcome))),
        ("prompt_tokens"@, Val::Count(prompt)),
        ("provider_retries"@, Val::Count(provider_retries as u64)),
    ] + reason + seq![("type"@, Val::Text("turn.completed"@))]
}

/// The last line of a turn.
pub fn turn_completed(
    usage: Option<Usage>,
    outcome: Outcome,
    limit: Option<Limit>,
    duration_ms: u64,
    provider_retries: u32,
) -> (s: String)
    ensures
        line_of(s@, turn_completed_line(usage, outcome, limit, duration_ms, provider_retries)),
        no_break(s@),
{
    let (prompt, completion, hit) = match usage {
        Some(u) => (u.prompt_tokens, u.completion_tokens, u.cache_hit_tokens),
        None => (0, 0, None),
    };
    let mut m: Vec<(String, Json)> = Vec::new();
    match hit {
        Some(h) => m.push(kv("cache_hit_tokens", crate::json::count(h))),
        None => {},
    }
    m.push(kv("completion_tokens", crate::json::count(completion)));
    m.push(kv("duration_ms", crate::json::count(duration_ms)));
    m.push(kv("outcome", crate::json::text(outcome.as_str())));
    m.push(kv("prompt_tokens", crate::json::count(prompt)));
    m.push(kv("provider_retries", crate::json::count(provider_retries as u64)));
    let incomplete = match outcome {
        Outcome::Incomplete => true,
        _ => false,
    };
    match limit {
        Some(l) => if incomplete {
            m.push(kv("reason", crate::json::text(l.as_str())));
        },
        None => {},
    }
    m.push(kv("type", crate::json::text("turn.completed")));
    let ghost f = turn_completed_line(usage, outcome, limit, duration_ms, provider_retries);
    assert(members_are(m@, f));
    emit(m, Ghost(f))
}

pub fn error(message: &str) -> (s: String)
    ensures
        line_of(s@, message_line("error"@, message@)),
        no_break(s@),
{
    message_line_of("error", message)
}

pub open spec fn error_coded_line(message: Seq<char>, code: Seq<char>, retryable: bool) -> Frame {
    seq![
        ("code"@, Val::Text(code)),
        ("message"@, Val::Text(message)),
        ("retryable"@, Val::Flag(retryable)),
        ("type"@, Val::Text("error"@)),
    ]
}

/// A failure whose cause is known: the message, the cause's code, and whether trying again
/// could help.
pub fn error_coded(message: &str, code: &str, retryable: bool) -> (s: String)
    ensures
        line_of(s@, error_coded_line(message@, code@, retryable)),
        no_break(s@),
{
    let mut m: Vec<(String, Json)> = Vec::new();
    m.push(kv("code", crate::json::text(code)));
    m.push(kv("message", crate::json::text(message)));
    m.push(kv("retryable", Json::Bool(retryable)));
    m.push(kv("type", crate::json::text("error")));
    emit(m, Ghost(error_coded_line(message@, code@, retryable)))
}

pub fn warning(message: &str) -> (s: String)
    ensures
        line_of(s@, message_line("warning"@, message@)),
        no_break(s@),
{
    message_line_of("warning", message)
}

pub open spec fn command_line(input: Seq<char>, text: Seq<char>, panel: bool) -> Frame {
    if panel {
        seq![
            ("input"@, Val::Text(input)),
            ("panel"@, Val::Flag(true)),
            ("text"@, Val::Text(text)),
            ("type"@, Val::Text("command"@)),
        ]
    } else {
        seq![
            ("input"@, Val::Text(input)),
            ("text"@, Val::Text(text)),
            ("type"@, Val::Text("command"@)),
        ]
    }
}

/// What a command answered, for the page's transcript.
pub fn command(input: &str, text: &str) -> (s: String)
    ensures
        line_of(s@, command_line(input@, text@, false)),
        no_break(s@),
{
    let mut m: Vec<(String, Json)> = Vec::new();
    m.push(kv("input", crate::json::text(input)));
    m.push(kv("text", crate::json::text(text)));
    m.push(kv("type", crate::json::text("command")));
    emit(m, Ghost(command_line(input@, text@, false)))
}

/// What a command answered, for the page's own panel.
pub fn report(input: &str, text: &str) -> (s: String)
    ensures
        line_of(s@, command_line(input@, text@, true)),
        no_break(s@),
{
    let mut m: Vec<(String, Json)> = Vec::new();
    m.push(kv("input", crate::json::text(input)));
    m.push(kv("panel", Json::Bool(true)));
    m.push(kv("text", crate::json::text(text)));
    m.push(kv("type", crate::json::text("command")));
    emit(m, Ghost(command_line(input@, text@, true)))
}

/// What a turn is waiting for.
pub fn status(text: &str, restarted: bool) -> (s: String)
    ensures
        line_of(s@, status_line(text@, restarted)),
        no_break(s@),
{
    status_line_of(text, restarted)
}

pub open spec fn heartbeat_line(text: Seq<char>, restarted: bool, elapsed_secs: u64) -> Frame {
    seq![
        ("elapsed_secs"@, Val::Count(elapsed_secs)),
        ("restarted"@, Val::Flag(restarted)),
        ("text"@, Val::Text(text)),
        ("type"@, Val::Text("status"@)),
    ]
}

/// The status line on a clock, with how long the current wait has gone on.
pub fn heartbeat(text: &str, restarted: bool, elapsed_secs: u64) -> (s: String)
    ensures
        line_of(s@, heartbeat_line(text@, restarted, elapsed_secs)),
        no_break(s@),
{
    let mut m: Vec<(String, Json)> = Vec::new();
    m.push(kv("elapsed_secs", crate::json::count(elapsed_secs)));
    m.push(kv("restarted", Json::Bool(restarted)));
    m.push(kv("text", crate::json::text(text)));
    m.push(kv("type", crate::json::text("status")));
    emit(m, Ghost(heartbeat_line(text@, restarted, elapsed_secs)))
}

// =======================================================================================
// Laws
// =======================================================================================

/// The sink after a run of text fragments.
pub open spec fn after_texts(s: SinkView, fragments: Seq<Seq<char>>) -> SinkView
    decreases fragments.len(),
{
    if fragments.len() == 0 {
        s
    } else {
        line_spec(after_texts(s, fragments.drop_last()), EventView::Text(fragments.last())).0
    }
}

/// The fragments, one after another.
pub open spec fn concat(fragments: Seq<Seq<char>>) -> Seq<char>
    decreases fragments.len(),
{
    if fragments.len() == 0 {
        Seq::<char>::empty()
    } else {
        concat(fragments.drop_last()) + fragments.last()
    }
}

proof fn lemma_after_texts(s: SinkView, fragments: Seq<Seq<char>>)
    ensures
        after_texts(s, fragments) == (SinkView { answer: s.answer + concat(fragments), ..s }),
    decreases fragments.len(),
{
    if fragments.len() == 0 {
        assert(s.answer + concat(fragments) =~= s.answer);
    } else {
        lemma_after_texts(s, fragments.drop_last());
        assert(s.answer + concat(fragments.drop_last()) + fragments.last() =~= s.answer + concat(
            fragments,
        ));
    }
}

/// The answer is collected from its fragments and delivered once, whole: after the
/// fragments of a turn, `Done` writes them all as one `message.completed`, and a second
/// `Done` in the same turn does not repeat them.
pub proof fn law_the_answer_is_delivered_once_whole(s: SinkView, fragments: Seq<Seq<char>>)
    requires
        s.answer.len() == 0,
    ensures
        line_spec(after_texts(s, fragments), EventView::Done).1 == Some(
            text_line("message.completed"@, concat(fragments)),
        ),
        line_spec(line_spec(after_texts(s, fragments), EventView::Done).0, EventView::Done).1
            == Some(text_line("message.completed"@, Seq::<char>::empty())),
{
    lemma_after_texts(s, fragments);
    assert(s.answer + concat(fragments) =~= concat(fragments));
}

// =======================================================================================
// An account check, as a line
// =======================================================================================

/// A figure of a balance, when the provider published it.
pub open spec fn figure(key: Seq<char>, value: Option<String>) -> Frame {
    match value {
        Some(v) => seq![(key, Val::Text(v@))],
        None => Seq::empty(),
    }
}

/// Whether the account can be used: a boolean, or `null` when nothing was learned.
pub open spec fn verdict_val(usable: Option<bool>) -> Val {
    match usable {
        Some(b) => Val::Flag(b),
        None => Val::Null,
    }
}

/// The line for an account check: the provider, what was checked, the verdict (`null` when
/// there is none), and the figures the provider published (absent when it did not).
pub open spec fn balance_line(name: Seq<char>, b: crate::provider::Balance) -> Frame {
    seq![("checked"@, Val::Text(b.checked@))] + figure("currency"@, b.currency) + figure(
        "granted_balance"@,
        b.granted,
    ) + seq![("provider"@, Val::Text(name))] + figure("topped_up_balance"@, b.topped_up) + figure(
        "total_balance"@,
        b.total,
    ) + seq![("type"@, Val::Text("balance"@)), ("usable"@, verdict_val(b.usable))]
}

/// Append a figure's member when the provider published it.
fn push_figure(m: &mut Vec<(String, Json)>, key: &str, value: &Option<String>, Ghost(f): Ghost<Frame>)
    requires
        members_are(old(m)@, f),
    ensures
        members_are(final(m)@, f + figure(key@, *value)),
{
    match value {
        Some(v) => {
            m.push(kv(key, crate::json::text(v.as_str())));
        },
        None => {},
    }
    assert(members_are(m@, f + figure(key@, *value)));
}

/// The line for an account check.
pub fn balance(name: &str, b: &crate::provider::Balance) -> (s: String)
    ensures
        line_of(s@, balance_line(name@, *b)),
        no_break(s@),
{
    let mut m: Vec<(String, Json)> = Vec::new();
    m.push(kv("checked", crate::json::text(b.checked)));
    let ghost f0: Frame = seq![("checked"@, Val::Text(b.checked@))];
    assert(members_are(m@, f0));
    push_figure(&mut m, "currency", &b.currency, Ghost(f0));
    let ghost f1 = f0 + figure("currency"@, b.currency);
    push_figure(&mut m, "granted_balance", &b.granted, Ghost(f1));
    let ghost f2 = f1 + figure("granted_balance"@, b.granted);
    m.push(kv("provider", crate::json::text(name)));
    let ghost f3 = f2 + seq![("provider"@, Val::Text(name@))];
    assert(members_are(m@, f3));
    push_figure(&mut m, "topped_up_balance", &b.topped_up, Ghost(f3));
    let ghost f4 = f3 + figure("topped_up_balance"@, b.topped_up);
    push_figure(&mut m, "total_balance", &b.total, Ghost(f4));
    let ghost f5 = f4 + figure("total_balance"@, b.total);
    m.push(kv("type", crate::json::text("balance")));
    let verdict = match b.usable {
        Some(x) => Json::Bool(x),
        None => Json::Null,
    };
    m.push(kv("usable", verdict));
    let ghost f6 = f5 + seq![("type"@, Val::Text("balance"@)), ("usable"@, verdict_val(b.usable))];
    assert(members_are(m@, f6));
    assert(f6 =~= balance_line(name@, *b));
    emit(m, Ghost(f6))
}

} // verus!
