//! The provider layer's decisions: what to ask for, how long to wait before asking again,
//! what a refused request means, and how an OpenAI-compatible stream of server-sent events
//! is read into events.
use vstd::prelude::*;
use std::collections::BTreeMap;

use crate::event::{
    event_views, message_views, tool_call_views, wire_message, CallView, Event, EventView,
    Message, MessageView, ToolCall, Usage,
};
use crate::json::{
    field, has_keys, is_text, items_field, items_of, same, str_field, text_of, u64_field, Json,
};
use crate::search::ProviderConfig;
use crate::text::{
    chars_of, contains, contains_chars, decimal, decimal_chars, extend_chars, extend_str,
    is_blank, lines, lines_of, lower, lower_chars, ov, starts_with, string_of, string_of_range,
    strip_prefix, trim, trim_str,
};

verus! {

// =======================================================================================
// Reasoning levels
// =======================================================================================

/// A reasoning level, and the JSON field to carry it in. Nothing is asked for unless both
/// are set.
#[derive(Debug)]
pub struct Thinking {
    /// `off`, `low`, `medium` or `high`.
    pub level: String,
    /// The field name from the provider's configuration; empty means "do not ask".
    pub field: String,
}

/// The levels asked in, in the order a switch offers them.
pub open spec fn levels() -> Seq<Seq<char>> {
    seq!["off"@, "low"@, "medium"@, "high"@]
}

/// The field and the level to put in a request, when one is asked for.
pub open spec fn asked_spec(level: Seq<char>, field: Seq<char>) -> Option<(Seq<char>, Seq<char>)> {
    if level == "off"@ || trim(field).len() == 0 {
        None
    } else {
        Some((trim(field), trim(level)))
    }
}

impl Thinking {
    /// Whether `word` is a level this build knows.
    pub fn is_a_level(word: &str) -> (b: bool)
        ensures
            b == levels().contains(word@),
    {
        let w = chars_of(word);
        let b = crate::text::eq_str(&w, "off") || crate::text::eq_str(&w, "low")
            || crate::text::eq_str(&w, "medium") || crate::text::eq_str(&w, "high");
        proof {
            if b {
                if word@ == "off"@ {
                    assert(levels()[0] == word@);
                } else if word@ == "low"@ {
                    assert(levels()[1] == word@);
                } else if word@ == "medium"@ {
                    assert(levels()[2] == word@);
                } else {
                    assert(levels()[3] == word@);
                }
            }
        }
        b
    }

    /// The field and the level to put in the request (both trimmed), or `None` when the
    /// level is `off` or no field is named.
    pub fn asked(&self) -> (r: Option<(String, String)>)
        ensures
            match r {
                Some((f, l)) => asked_spec(self.level@, self.field@) == Some((f@, l@)),
                None => asked_spec(self.level@, self.field@) is None,
            },
    {
        let level = chars_of(self.level.as_str());
        if crate::text::eq_str(&level, "off") || is_blank(self.field.as_str()) {
            None
        } else {
            Some((trim_str(self.field.as_str()), trim_str(self.level.as_str())))
        }
    }
}

// =======================================================================================
// Where requests go
// =======================================================================================

/// The proxy written down for a provider, trimmed; a blank one is no proxy.
pub open spec fn configured_proxy_spec(proxy: Option<Seq<char>>) -> Option<Seq<char>> {
    match proxy {
        Some(p) => if trim(p).len() > 0 {
            Some(trim(p))
        } else {
            None
        },
        None => None,
    }
}

/// Which proxy to reach this provider through: the one written down for it, or none, which
/// means a direct connection.
pub fn configured_proxy(config: &ProviderConfig) -> (r: Option<String>)
    ensures
        ov(r) == configured_proxy_spec(ov(config.proxy)),
{
    match &config.proxy {
        Some(p) => if !is_blank(p.as_str()) {
            Some(trim_str(p.as_str()))
        } else {
            None
        },
        None => None,
    }
}

/// Whether a base URL points at a local model server.
pub open spec fn is_local_spec(base_url: Seq<char>) -> bool {
    let u = lower(base_url);
    contains(u, "localhost"@) || contains(u, "127.0.0.1"@) || contains(u, "0.0.0.0"@) || contains(
        u,
        "[::1]"@,
    )
}

/// Whether a base URL points at a local model server (ASCII case does not matter).
pub fn is_local_endpoint(base_url: &str) -> (b: bool)
    ensures
        b == is_local_spec(base_url@),
{
    let u = lower_chars(base_url);
    contains_chars(&u, &chars_of("localhost")) || contains_chars(&u, &chars_of("127.0.0.1"))
        || contains_chars(&u, &chars_of("0.0.0.0")) || contains_chars(&u, &chars_of("[::1]"))
}

// =======================================================================================
// Retrying
// =======================================================================================

/// How many times one completion is attempted before the turn is reported as failed.
pub const MAX_ATTEMPTS: u32 = 4;

/// The wait before attempt `attempt`, in seconds: one second after the first attempt,
/// doubling, and never more than sixteen.
pub open spec fn retry_delay_spec(attempt: u32) -> u64 {
    if attempt <= 1 {
        1
    } else if attempt == 2 {
        2
    } else if attempt == 3 {
        4
    } else if attempt == 4 {
        8
    } else {
        16
    }
}

/// How long to wait, in seconds, before attempt `attempt` (the wait after attempt 1 is the
/// first): `2^min(attempt - 1, 4)`, with `attempt - 1` saturating at zero, capped at 16.
fn retry_delay(attempt: u32) -> (secs: u64)
    ensures
        secs == retry_delay_spec(attempt),
{
    let shift: u32 = if attempt <= 1 {
        0
    } else if attempt - 1 < 4 {
        attempt - 1
    } else {
        4
    };
    let secs: u64 = if shift == 0 {
        1
    } else if shift == 1 {
        2
    } else if shift == 2 {
        4
    } else if shift == 3 {
        8
    } else {
        16
    };
    if secs < 16 {
        secs
    } else {
        16
    }
}

/// The backoff schedule, in seconds, so that its shape can be checked.
pub fn retry_delay_for_test(attempt: u32) -> (secs: u64)
    ensures
        secs == retry_delay_spec(attempt),
{
    retry_delay(attempt)
}

/// The first line of a message (`str::lines`), or the whole text when it has no lines.
pub open spec fn first_line_spec(text: Seq<char>) -> Seq<char> {
    if lines_of(text).len() > 0 {
        lines_of(text)[0]
    } else {
        text
    }
}

/// The first line of a message, for the one-line notice printed between attempts.
pub fn first_line(text: &str) -> (s: String)
    ensures
        s@ == first_line_spec(text@),
{
    let ls = lines(text);
    if ls.len() > 0 {
        assert(crate::text::views(ls@)[0] == ls@[0]@);
        string_of(&ls[0])
    } else {
        text.to_owned()
    }
}

// =======================================================================================
// Why a request failed
// =======================================================================================

/// The longest a quoted body may be in a message, in characters.
pub open spec fn quoted_limit() -> nat {
    800
}

/// At most `max` characters of `s`, with `…` in place of the rest when there was more.
pub open spec fn truncate_spec(s: Seq<char>, max: nat) -> Seq<char> {
    if s.len() <= max {
        s
    } else {
        s.subrange(0, max as int).push('…')
    }
}

/// At most `max` characters of `s`, with `…` in place of the rest when there was more.
pub fn truncate(s: &str, max: usize) -> (t: String)
    ensures
        t@ == truncate_spec(s@, max as nat),
{
    let v = chars_of(s);
    if v.len() <= max {
        s.to_owned()
    } else {
        let mut out = crate::text::copy_range(&v, 0, max);
        out.push('…');
        string_of(&out)
    }
}

/// Why a provider call failed, and whether waiting could help.
#[derive(Debug)]
pub struct ProviderFailure {
    /// A stable name for the cause: `insufficient_balance`, `rate_limit`, `auth`, `server`,
    /// `bad_request`, `network` or `unknown`.
    pub code: &'static str,
    /// Whether another attempt could plausibly help.
    pub retryable: bool,
    /// What the provider said, and where.
    pub message: String,
}

/// Whether the body says the account has no money left.
pub open spec fn says_no_money(body: Seq<char>) -> bool {
    let said = lower(body);
    contains(said, "insufficient_quota"@) || contains(said, "insufficient balance"@) || contains(
        said,
        "credit balance is too low"@,
    )
}

/// Whether a status is worth another attempt: too many requests, or a server error.
pub open spec fn transient_spec(status: u16) -> bool {
    status == 429 || (500 <= status <= 599)
}

/// What a refused request means, read from the status and the body: the code and whether
/// another attempt could help.
pub open spec fn classify_spec(status: u16, body: Seq<char>) -> (Seq<char>, bool) {
    if status == 402 || says_no_money(body) {
        ("insufficient_balance"@, false)
    } else if status == 401 || status == 403 {
        ("auth"@, false)
    } else if status == 429 {
        ("rate_limit"@, true)
    } else if 500 <= status <= 599 {
        ("server"@, true)
    } else if 400 <= status <= 499 {
        ("bad_request"@, false)
    } else {
        ("unknown"@, transient_spec(status))
    }
}

/// Whether a status is worth another attempt.
pub fn status_is_transient(status: u16) -> (b: bool)
    ensures
        b == transient_spec(status),
{
    status == 429 || (500 <= status && status <= 599)
}

/// What a non-2xx response means, read from the status and the body: an exhausted quota is
/// named as such whatever status carries it, and is not worth retrying.
pub fn classify(status: u16, body: &str) -> (r: (&'static str, bool))
    ensures
        (r.0@, r.1) == classify_spec(status, body@),
{
    let said = lower_chars(body);
    let money = contains_chars(&said, &chars_of("insufficient_quota")) || contains_chars(
        &said,
        &chars_of("insufficient balance"),
    ) || contains_chars(&said, &chars_of("credit balance is too low"));
    if status == 402 || money {
        return ("insufficient_balance", false);
    }
    if status == 401 || status == 403 {
        return ("auth", false);
    }
    if status == 429 {
        return ("rate_limit", true);
    }
    if 500 <= status && status <= 599 {
        return ("server", true);
    }
    if 400 <= status && status <= 499 {
        return ("bad_request", false);
    }
    ("unknown", status_is_transient(status))
}

/// How an attempt at a completion ended.
#[derive(Debug, Clone, Copy, PartialEq, Eq, Structural)]
pub enum AttemptEnd {
    /// The stream arrived whole.
    Finished,
    /// It failed; `retryable` is the failure's own verdict on another attempt.
    Failed { retryable: bool },
}

/// What to do after an attempt.
#[derive(Debug, Clone, Copy, PartialEq, Eq, Structural)]
pub enum NextStep {
    /// The completion is done.
    Succeed,
    /// Wait, then make attempt `attempt`.
    Retry { attempt: u32, wait_secs: u64 },
    /// Report the failure: the answer had begun to be drawn, so a second attempt would be
    /// written after the first.
    StopDrawn,
    /// Report the failure after `attempts` attempts.
    GiveUp { attempts: u32 },
}

/// The decision after attempt `attempt` of one completion: another attempt only after a
/// failure that could pass, that drew no text, and while fewer than `MAX_ATTEMPTS` were made.
pub open spec fn next_step_spec(attempt: u32, end: AttemptEnd, drawn: bool) -> NextStep {
    match end {
        AttemptEnd::Finished => NextStep::Succeed,
        AttemptEnd::Failed { retryable } => if drawn {
            NextStep::StopDrawn
        } else if !retryable || attempt >= MAX_ATTEMPTS {
            NextStep::GiveUp { attempts: attempt }
        } else {
            NextStep::Retry { attempt: (attempt + 1) as u32, wait_secs: retry_delay_spec(attempt) }
        },
    }
}

/// What to do after attempt `attempt` (counted from 1) ended so, having drawn text or not.
pub fn next_step(attempt: u32, end: AttemptEnd, drawn: bool) -> (step: NextStep)
    requires
        attempt >= 1,
    ensures
        step == next_step_spec(attempt, end, drawn),
{
    match end {
        AttemptEnd::Finished => NextStep::Succeed,
        AttemptEnd::Failed { retryable } => if drawn {
            NextStep::StopDrawn
        } else if !retryable || attempt >= MAX_ATTEMPTS {
            NextStep::GiveUp { attempts: attempt }
        } else {
            NextStep::Retry { attempt: attempt + 1, wait_secs: retry_delay(attempt) }
        },
    }
}

/// What is said of a failure that retries gave up on: after more than one attempt, that they
/// were made; after one, nothing is added.
pub open spec fn gave_up_note(attempts: u32) -> Option<Seq<char>> {
    if attempts > 1 {
        Some(
            "gave up after "@ + decimal(attempts as nat)
                + " attempts -- the network or the provider stayed unreachable"@,
        )
    } else {
        None
    }
}

/// The note added to a failure that retries gave up on.
pub fn gave_up(attempts: u32) -> (r: Option<String>)
    ensures
        ov(r) == gave_up_note(attempts),
{
    if attempts > 1 {
        let mut out = chars_of("gave up after ");
        extend_chars(&mut out, &decimal_chars(attempts as u64));
        extend_str(&mut out, " attempts -- the network or the provider stayed unreachable");
        Some(string_of(&out))
    } else {
        None
    }
}

/// The line shown before another attempt: the first line of why, the wait, and the attempt
/// about to be made out of how many.
pub open spec fn retry_notice_spec(why: Seq<char>, wait_secs: u64, attempt: u32) -> Seq<char> {
    first_line_spec(why) + " -- retrying in "@ + decimal(wait_secs as nat) + "s (attempt "@
        + decimal(attempt as nat) + "/"@ + decimal(MAX_ATTEMPTS as nat) + ")"@
}

/// The line shown before attempt `attempt`.
pub fn retry_notice(why: &str, wait_secs: u64, attempt: u32) -> (s: String)
    ensures
        s@ == retry_notice_spec(why@, wait_secs, attempt),
{
    let mut out = chars_of(first_line(why).as_str());
    extend_str(&mut out, " -- retrying in ");
    extend_chars(&mut out, &decimal_chars(wait_secs));
    extend_str(&mut out, "s (attempt ");
    extend_chars(&mut out, &decimal_chars(attempt as u64));
    extend_str(&mut out, "/");
    extend_chars(&mut out, &decimal_chars(MAX_ATTEMPTS as u64));
    extend_str(&mut out, ")");
    string_of(&out)
}

/// The failure of a stream that ended before the provider's completion signal: what arrived
/// is only part of an answer, and it is not a success.
pub open spec fn unfinished_message(endpoint: Seq<char>) -> Seq<char> {
    "the response from "@ + endpoint
        + " ended before it was finished -- no completion signal arrived, so what came back is only part of an answer"@
}

/// How a stream that has stopped arriving ends: well when the completion signal came, else
/// as a network failure, worth another attempt.
pub fn stream_end(done: bool, endpoint: &str) -> (r: Option<ProviderFailure>)
    ensures
        done <==> r is None,
        r matches Some(f) ==> f.code@ == "network"@ && f.retryable && f.message@
            == unfinished_message(endpoint@),
{
    if done {
        None
    } else {
        let mut out = chars_of("the response from ");
        extend_str(&mut out, endpoint);
        extend_str(
            &mut out,
            " ended before it was finished -- no completion signal arrived, so what came back is only part of an answer",
        );
        Some(ProviderFailure::network(string_of(&out)))
    }
}

/// Every attempt after the first follows a failure that could pass and drew no text, and no
/// completion is attempted more than `MAX_ATTEMPTS` times, each wait at most sixteen seconds.
pub proof fn law_retries_are_bounded(attempt: u32, end: AttemptEnd, drawn: bool)
    requires
        attempt >= 1,
    ensures
        next_step_spec(attempt, end, drawn) matches NextStep::Retry { attempt: next, wait_secs } ==> {
            &&& next == attempt + 1
            &&& next <= MAX_ATTEMPTS
            &&& !drawn
            &&& end == (AttemptEnd::Failed { retryable: true })
            &&& 1 <= wait_secs <= 16
        },
        end == AttemptEnd::Finished ==> next_step_spec(attempt, end, drawn) == NextStep::Succeed,
{
}

impl ProviderFailure {
    /// The request did not get out, or the answer stopped arriving: worth another attempt.
    pub fn network(message: String) -> (f: ProviderFailure)
        ensures
            f.code@ == "network"@,
            f.retryable,
            f.message == message,
    {
        ProviderFailure { code: "network", retryable: true, message }
    }

    /// A response the provider answered, classified from its status and its body.
    /// `status_text` is the status as the HTTP client writes it (`429 Too Many Requests`).
    pub fn from_response(provider: &str, status: u16, status_text: &str, body: &str) -> (f:
        ProviderFailure)
        ensures
            (f.code@, f.retryable) == classify_spec(status, body@),
            f.message@ == "provider '"@ + provider@ + "' returned HTTP "@ + status_text@ + ": "@
                + truncate_spec(trim(body@), quoted_limit()),
    {
        let (code, retryable) = classify(status, body);
        let trimmed = trim_str(body);
        let quoted = truncate(trimmed.as_str(), 800);
        let mut out: Vec<char> = Vec::new();
        extend_str(&mut out, "provider '");
        extend_str(&mut out, provider);
        extend_str(&mut out, "' returned HTTP ");
        extend_str(&mut out, status_text);
        extend_str(&mut out, ": ");
        extend_str(&mut out, quoted.as_str());
        ProviderFailure { code, retryable, message: string_of(&out) }
    }
}

// =======================================================================================
// Whether a provider can be used
// =======================================================================================

/// What a provider says about itself: whether it will serve requests (`None` when the check
/// could not decide), what answered the question, and the figures when it publishes them.
#[derive(Debug)]
pub struct Balance {
    pub usable: Option<bool>,
    /// `balance`, `models` or `none`.
    pub checked: &'static str,
    pub currency: Option<String>,
    pub total: Option<String>,
    pub granted: Option<String>,
    pub topped_up: Option<String>,
}

impl Balance {
    /// A verdict with no figures.
    pub fn verdict(usable: Option<bool>, checked: &'static str) -> (b: Balance)
        ensures
            b.usable == usable,
            b.checked == checked,
            b.currency is None,
            b.total is None,
            b.granted is None,
            b.topped_up is None,
    {
        Balance { usable, checked, currency: None, total: None, granted: None, topped_up: None }
    }
}

/// A `usage` object read into the three counts: the counts fall back to zero, the cache split
/// to DeepSeek's name or OpenAI's, and to nothing when neither is there.
pub open spec fn usage_spec(u: Json) -> Usage {
    Usage {
        prompt_tokens: match u64_field(u, "prompt_tokens"@) {
            Some(n) => n,
            None => 0,
        },
        completion_tokens: match u64_field(u, "completion_tokens"@) {
            Some(n) => n,
            None => 0,
        },
        cache_hit_tokens: match u64_field(u, "prompt_cache_hit_tokens"@) {
            Some(n) => Some(n),
            None => match field(u, "prompt_tokens_details"@) {
                Some(d) => u64_field(d, "cached_tokens"@),
                None => None,
            },
        },
    }
}

/// A `usage` object read into flint's own accounting.
fn usage_from(usage: &Json) -> (u: Usage)
    ensures
        u == usage_spec(*usage),
{
    let prompt_tokens = match usage.u64_at("prompt_tokens") {
        Some(n) => n,
        None => 0,
    };
    let completion_tokens = match usage.u64_at("completion_tokens") {
        Some(n) => n,
        None => 0,
    };
    let cache_hit_tokens = match usage.u64_at("prompt_cache_hit_tokens") {
        Some(n) => Some(n),
        None => match usage.get("prompt_tokens_details") {
            Some(d) => d.u64_at("cached_tokens"),
            None => None,
        },
    };
    Usage { prompt_tokens, completion_tokens, cache_hit_tokens }
}

/// The id given to a streamed tool call whose provider sent none.
pub open spec fn id_spec(index: u64) -> Seq<char> {
    "call_"@ + decimal(index as nat)
}

/// A stable id for a streamed tool call the provider gave none, so that its result can be
/// matched to it.
pub fn id_for(index: u64) -> (s: String)
    ensures
        s@ == id_spec(index),
{
    let mut out: Vec<char> = Vec::new();
    extend_str(&mut out, "call_");
    let digits = decimal_chars(index);
    extend_chars(&mut out, &digits);
    string_of(&out)
}

// =======================================================================================
// The stream parser
// =======================================================================================

/// Incremental parser for an OpenAI-compatible stream of server-sent events, fed one
/// complete line at a time.
#[derive(Debug)]
pub struct StreamParser {
    /// Tool calls under construction, by the provider's `index`.
    calls: BTreeMap<u64, ToolCall>,
    /// Set when the `[DONE]` sentinel is seen.
    pub done: bool,
    /// Set when a `finish_reason` was observed.
    pub finish_reason: Option<String>,
}

pub ghost struct ParserView {
    pub calls: Map<u64, CallView>,
    pub done: bool,
    pub finish_reason: Option<Seq<char>>,
}

pub open spec fn call_views(m: Map<u64, ToolCall>) -> Map<u64, CallView> {
    m.map_values(|c: ToolCall| c@)
}

impl View for StreamParser {
    type V = ParserView;

    closed spec fn view(&self) -> ParserView {
        ParserView {
            calls: call_views(self.calls@),
            done: self.done,
            finish_reason: ov(self.finish_reason),
        }
    }
}

pub open spec fn no_call() -> CallView {
    CallView { id: Seq::<char>::empty(), name: Seq::<char>::empty(), arguments: Seq::<char>::empty() }
}

/// One fragment of a tool call, added to what is known of it: the provider's id once it is
/// not empty, the name the first time a non-empty one arrives, and the arguments appended.
pub open spec fn fill_call(call: CallView, tc: Json) -> CallView {
    let c1 = match str_field(tc, "id"@) {
        Some(id) => if id.len() > 0 {
            CallView { id, ..call }
        } else {
            call
        },
        None => call,
    };
    match field(tc, "function"@) {
        None => c1,
        Some(f) => {
            let c2 = match str_field(f, "name"@) {
                Some(n) => if n.len() > 0 && c1.name.len() == 0 {
                    CallView { name: n, ..c1 }
                } else {
                    c1
                },
                None => c1,
            };
            match str_field(f, "arguments"@) {
                Some(a) => CallView { arguments: c2.arguments + a, ..c2 },
                None => c2,
            }
        },
    }
}

/// The index a fragment is for; zero when it names none.
pub open spec fn index_of(tc: Json) -> u64 {
    match u64_field(tc, "index"@) {
        Some(n) => n,
        None => 0,
    }
}

/// One tool-call fragment read into the calls: the call with its index, begun empty when
/// there was none, filled in with it.
pub open spec fn tool_call_step(c: Map<u64, CallView>, tc: Json) -> Map<u64, CallView> {
    let index = index_of(tc);
    let before = if c.contains_key(index) {
        c[index]
    } else {
        no_call()
    };
    c.insert(index, fill_call(before, tc))
}

/// The fragments read into the calls, in order.
pub open spec fn tool_calls_fold(c: Map<u64, CallView>, tcs: Seq<Json>) -> Map<u64, CallView>
    decreases tcs.len(),
{
    if tcs.len() == 0 {
        c
    } else {
        tool_call_step(tool_calls_fold(c, tcs.drop_last()), tcs.last())
    }
}

/// What reading the choices of one frame has produced so far.
pub ghost struct Progress {
    pub calls: Map<u64, CallView>,
    pub finish_reason: Option<Seq<char>>,
    pub events: Seq<EventView>,
}

/// The reasoning of a delta, under either of its two names; the first name decides when it
/// is there at all.
pub open spec fn reasoning_of(delta: Json) -> Option<Seq<char>> {
    match field(delta, "reasoning_content"@) {
        Some(v) => text_of(v),
        None => str_field(delta, "reasoning"@),
    }
}

/// One choice of a frame: its finish reason, its text, its reasoning and its tool calls.
pub open spec fn choice_step(p: Progress, choice: Json) -> Progress {
    let fr = match str_field(choice, "finish_reason"@) {
        Some(r) => if r.len() > 0 {
            Some(r)
        } else {
            p.finish_reason
        },
        None => p.finish_reason,
    };
    match field(choice, "delta"@) {
        None => Progress { finish_reason: fr, ..p },
        Some(delta) => {
            let e1 = match str_field(delta, "content"@) {
                Some(t) => if t.len() > 0 {
                    p.events.push(EventView::Text(t))
                } else {
                    p.events
                },
                None => p.events,
            };
            let e2 = match reasoning_of(delta) {
                Some(r) => if r.len() > 0 {
                    e1.push(EventView::Reasoning(r))
                } else {
                    e1
                },
                None => e1,
            };
            let calls = match items_field(delta, "tool_calls"@) {
                Some(tcs) => tool_calls_fold(p.calls, tcs),
                None => p.calls,
            };
            Progress { calls, finish_reason: fr, events: e2 }
        },
    }
}

/// The choices of a frame, read in order.
pub open spec fn choices_fold(p: Progress, cs: Seq<Json>) -> Progress
    decreases cs.len(),
{
    if cs.len() == 0 {
        p
    } else {
        choice_step(choices_fold(p, cs.drop_last()), cs.last())
    }
}

/// One parsed frame: its usage, when it reports one, and its choices.
pub open spec fn chunk_spec(s: ParserView, chunk: Json) -> (ParserView, Seq<EventView>) {
    let e0 = match field(chunk, "usage"@) {
        Some(u) => if u is Null {
            Seq::<EventView>::empty()
        } else {
            seq![EventView::Usage(usage_spec(u))]
        },
        None => Seq::<EventView>::empty(),
    };
    match items_field(chunk, "choices"@) {
        None => (s, e0),
        Some(cs) => {
            let p = choices_fold(Progress { calls: s.calls, finish_reason: s.finish_reason, events: e0 }, cs);
            (ParserView { calls: p.calls, finish_reason: p.finish_reason, ..s }, p.events)
        },
    }
}

/// The warning for a frame that looks like JSON and does not parse.
pub open spec fn bad_frame(error: Seq<char>, data: Seq<char>) -> Seq<char> {
    "could not parse a stream frame from the provider: "@ + error + ". Raw: "@ + truncate_spec(
        data,
        200,
    )
}

/// One line of the stream: what the parser knows afterwards, and the events it produced.
/// Lines that are not `data:`, blank payloads and payloads that are not JSON produce
/// nothing, except a warning for one that starts like a JSON object.
pub open spec fn feed_spec(s: ParserView, line: Seq<char>) -> (ParserView, Seq<EventView>) {
    match strip_prefix(line, "data:"@) {
        None => (s, Seq::<EventView>::empty()),
        Some(d0) => {
            let d = trim(d0);
            if d.len() == 0 {
                (s, Seq::<EventView>::empty())
            } else if d == "[DONE]"@ {
                (ParserView { done: true, ..s }, Seq::<EventView>::empty())
            } else {
                match crate::json::json_read(d) {
                    Err(e) => (
                        s,
                        if starts_with(d, "{"@) {
                            seq![EventView::Warning(bad_frame(e, d))]
                        } else {
                            Seq::<EventView>::empty()
                        },
                    ),
                    Ok(chunk) => chunk_spec(s, chunk),
                }
            }
        },
    }
}

/// The events for one finished call: nothing for a call that never got a name; otherwise
/// its start and its arguments under one id (the provider's, or one made from the index),
/// with blank arguments read as `{}`.
pub open spec fn finish_one(e: (u64, CallView)) -> Seq<EventView> {
    let call = e.1;
    if call.name.len() == 0 {
        Seq::<EventView>::empty()
    } else {
        let id = if call.id.len() == 0 {
            id_spec(e.0)
        } else {
            call.id
        };
        let args = if trim(call.arguments).len() == 0 {
            "{}"@
        } else {
            call.arguments
        };
        seq![EventView::ToolStart { id, name: call.name }, EventView::ToolArgs { id, args }]
    }
}

/// The events for the finished calls, in order of their index.
pub open spec fn finish_spec(c: Seq<(u64, CallView)>) -> Seq<EventView>
    decreases c.len(),
{
    if c.len() == 0 {
        Seq::<EventView>::empty()
    } else {
        finish_spec(c.drop_last()) + finish_one(c.last())
    }
}

/// Whether `c` is the calls of `m`, each once, in strictly increasing order of index.
pub open spec fn key_order(c: Seq<(u64, CallView)>, m: Map<u64, CallView>) -> bool {
    &&& forall|i: int, j: int| 0 <= i < j < c.len() ==> c[i].0 < c[j].0
    &&& forall|i: int|
        0 <= i < c.len() ==> m.contains_key(#[trigger] c[i].0) && m[c[i].0] == c[i].1
    &&& forall|k: u64| #[trigger] m.contains_key(k) ==> exists|i: int| 0 <= i < c.len() && c[i].0 == k
}

/// The calls in order of their index.
pub open spec fn in_index_order(m: Map<u64, CallView>) -> Seq<(u64, CallView)> {
    choose|c: Seq<(u64, CallView)>| key_order(c, m)
}

/// There is one way to list the calls in increasing order of index.
pub proof fn lemma_key_order_unique(a: Seq<(u64, CallView)>, b: Seq<(u64, CallView)>, m: Map<
    u64,
    CallView,
>)
    requires
        key_order(a, m),
        key_order(b, m),
    ensures
        a == b,
    decreases a.len(),
{
    if a.len() == 0 {
        if b.len() > 0 {
            assert(m.contains_key(b[0].0));
        }
        assert(a =~= b);
    } else {
        assert(m.contains_key(a[0].0));
        assert(b.len() > 0);
        assert(m.contains_key(b[0].0));
        let ja = choose|i: int| 0 <= i < a.len() && a[i].0 == b[0].0;
        let jb = choose|i: int| 0 <= i < b.len() && b[i].0 == a[0].0;
        if ja > 0 {
            assert(a[0].0 < a[ja].0);
        }
        if jb > 0 {
            assert(b[0].0 < b[jb].0);
        }
        assert(a[0].0 == b[0].0);
        let k0 = a[0].0;
        let m1 = m.remove(k0);
        let a1 = a.drop_first();
        let b1 = b.drop_first();
        assert forall|i: int| 0 <= i < a1.len() implies m1.contains_key(#[trigger] a1[i].0)
            && m1[a1[i].0] == a1[i].1 by {
            assert(a1[i] == a[i + 1]);
            assert(a[0].0 < a[i + 1].0);
        }
        assert forall|k: u64| #[trigger] m1.contains_key(k) implies exists|i: int|
            0 <= i < a1.len() && a1[i].0 == k by {
            let w = choose|i: int| 0 <= i < a.len() && a[i].0 == k;
            assert(w > 0);
            assert(a1[w - 1].0 == k);
        }
        assert forall|i: int| 0 <= i < b1.len() implies m1.contains_key(#[trigger] b1[i].0)
            && m1[b1[i].0] == b1[i].1 by {
            assert(b1[i] == b[i + 1]);
            assert(b[0].0 < b[i + 1].0);
        }
        assert forall|k: u64| #[trigger] m1.contains_key(k) implies exists|i: int|
            0 <= i < b1.len() && b1[i].0 == k by {
            let w = choose|i: int| 0 <= i < b.len() && b[i].0 == k;
            assert(w > 0);
            assert(b1[w - 1].0 == k);
        }
        assert forall|i: int, j: int| 0 <= i < j < a1.len() implies a1[i].0 < a1[j].0 by {
            assert(a1[i] == a[i + 1] && a1[j] == a[j + 1]);
        }
        assert forall|i: int, j: int| 0 <= i < j < b1.len() implies b1[i].0 < b1[j].0 by {
            assert(b1[i] == b[i + 1] && b1[j] == b[j + 1]);
        }
        lemma_key_order_unique(a1, b1, m1);
        assert(a[0] == b[0]);
        assert(a =~= seq![a[0]] + a1);
        assert(b =~= seq![b[0]] + b1);
    }
}

/// Indexes are ordered as a map of calls needs them to be.
proof fn lemma_index_keys_are_ordered()
    ensures
        vstd::std_specs::btree::key_obeys_cmp_spec::<u64>(),
{
    broadcast use vstd::std_specs::btree::group_btree_axioms, vstd::laws_cmp::group_laws_cmp;

}

/// The pairs a map's iterator gives are its calls, each once, in increasing order of index.
proof fn lemma_listed_in_order<'a>(
    calls: &'a BTreeMap<u64, ToolCall>,
    iter: std::collections::btree_map::Iter<'a, u64, ToolCall>,
)
    requires
        iter == vstd::std_specs::btree::spec_btree_map_iter(calls),
        vstd::std_specs::btree::increasing_seq(
            vstd::std_specs::iter::IteratorSpec::remaining(&iter).map_values(
                |p: (&u64, &ToolCall)| *p.0,
            ),
        ),
    ensures
        key_order(
            vstd::std_specs::iter::IteratorSpec::remaining(&iter).map_values(
                |p: (&u64, &ToolCall)| (*p.0, p.1@),
            ),
            call_views(calls@),
        ),
{
    broadcast use vstd::std_specs::btree::group_btree_axioms, vstd::laws_cmp::group_laws_cmp;

    let all = vstd::std_specs::iter::IteratorSpec::remaining(&iter);
    let keys = all.map_values(|p: (&u64, &ToolCall)| *p.0);
    let c = all.map_values(|p: (&u64, &ToolCall)| (*p.0, p.1@));
    let m = call_views(calls@);
    assert(keys =~= all.map_values(|p: (&u64, &ToolCall)| *p.0));
    assert forall|i: int, j: int| 0 <= i < j < c.len() implies c[i].0 < c[j].0 by {
        assert(vstd::std_specs::cmp::OrdSpec::cmp_spec(&keys[i], &keys[j]) is Less);
    }
    assert forall|i: int| 0 <= i < c.len() implies m.contains_key(#[trigger] c[i].0) && m[c[i].0]
        == c[i].1 by {
        assert(calls@.contains_key(*all[i].0));
    }
    assert forall|k: u64| #[trigger] m.contains_key(k) implies exists|i: int|
        0 <= i < c.len() && c[i].0 == k by {
        assert(calls@.contains_key(k));
        assert(all.contains((&k, &calls@[k])));
        let w = choose|w: int| 0 <= w < all.len() && all[w] == (&k, &calls@[k]);
        assert(c[w].0 == k);
    }
}

/// An empty call.
fn new_call() -> (c: ToolCall)
    ensures
        c@ == no_call(),
{
    ToolCall { id: String::new(), name: String::new(), arguments: String::new() }
}

/// One fragment added to what is known of a call.
fn fill(call: &mut ToolCall, tc: &Json)
    ensures
        final(call)@ == fill_call(old(call)@, *tc),
{
    match tc.str_at("id") {
        Some(id) => if chars_of(id.as_str()).len() > 0 {
            call.id = id.clone();
        },
        None => {},
    }
    match tc.get("function") {
        None => {},
        Some(f) => {
            match f.str_at("name") {
                Some(n) => if chars_of(n.as_str()).len() > 0 && chars_of(call.name.as_str()).len()
                    == 0 {
                    call.name = n.clone();
                },
                None => {},
            }
            match f.str_at("arguments") {
                Some(a) => {
                    let mut out = chars_of(call.arguments.as_str());
                    extend_str(&mut out, a.as_str());
                    call.arguments = string_of(&out);
                },
                None => {},
            }
        },
    }
}

/// One tool-call fragment read into the calls.
fn add_fragment(calls: &mut BTreeMap<u64, ToolCall>, tc: &Json)
    ensures
        call_views(final(calls)@) == tool_call_step(call_views(old(calls)@), *tc),
{
    broadcast use vstd::std_specs::btree::group_btree_axioms, vstd::laws_cmp::group_laws_cmp;

    let index = match tc.u64_at("index") {
        Some(n) => n,
        None => 0,
    };
    let ghost c0 = calls@;
    let mut call = match calls.remove(&index) {
        Some(c) => c,
        None => new_call(),
    };
    fill(&mut call, tc);
    calls.insert(index, call);
    assert(call_views(calls@) =~= tool_call_step(call_views(c0), *tc));
}

impl StreamParser {
    /// A parser that has read nothing.
    pub fn new() -> (p: StreamParser)
        ensures
            p@ == (ParserView { calls: Map::<u64, CallView>::empty(), done: false, finish_reason: None }),
            !p@.done,
            p@.finish_reason is None,
    {
        let p = StreamParser { calls: BTreeMap::new(), done: false, finish_reason: None };
        assert(call_views(p.calls@) =~= Map::<u64, CallView>::empty());
        p
    }

    /// The fragments of one delta read into the calls.
    fn add_fragments(&mut self, tcs: &Vec<Json>)
        ensures
            call_views(final(self).calls@) == tool_calls_fold(call_views(old(self).calls@), tcs@),
            final(self).done == old(self).done,
            final(self).finish_reason == old(self).finish_reason,
    {
        let ghost c0 = call_views(self.calls@);
        let mut i: usize = 0;
        assert(tcs@.subrange(0, 0) =~= Seq::<Json>::empty());
        while i < tcs.len()
            invariant
                i <= tcs@.len(),
                call_views(self.calls@) == tool_calls_fold(c0, tcs@.subrange(0, i as int)),
                self.done == old(self).done,
                self.finish_reason == old(self).finish_reason,
            decreases tcs@.len() - i,
        {
            add_fragment(&mut self.calls, &tcs[i]);
            assert(tcs@.subrange(0, i + 1).drop_last() =~= tcs@.subrange(0, i as int));
            i = i + 1;
        }
        assert(tcs@.subrange(0, tcs@.len() as int) =~= tcs@);
    }

    /// One choice of a frame.
    fn read_choice(&mut self, choice: &Json, events: &mut Vec<Event>)
        ensures
            ({
                let p = choice_step(
                    Progress {
                        calls: call_views(old(self).calls@),
                        finish_reason: ov(old(self).finish_reason),
                        events: event_views(old(events)@),
                    },
                    *choice,
                );
                &&& call_views(final(self).calls@) == p.calls
                &&& ov(final(self).finish_reason) == p.finish_reason
                &&& event_views(final(events)@) == p.events
                &&& final(self).done == old(self).done
            }),
    {
        match choice.str_at("finish_reason") {
            Some(r) => if chars_of(r.as_str()).len() > 0 {
                self.finish_reason = Some(r.clone());
            },
            None => {},
        }
        let delta = match choice.get("delta") {
            Some(d) => d,
            None => {
                return;
            },
        };
        match delta.str_at("content") {
            Some(t) => if chars_of(t.as_str()).len() > 0 {
                let ghost e0 = events@;
                events.push(Event::Text(t.clone()));
                assert(event_views(events@) =~= event_views(e0).push(EventView::Text(t@)));
            },
            None => {},
        }
        let reasoning = match delta.get("reasoning_content") {
            Some(v) => v.as_str(),
            None => delta.str_at("reasoning"),
        };
        match reasoning {
            Some(r) => if chars_of(r.as_str()).len() > 0 {
                let ghost e0 = events@;
                events.push(Event::Reasoning(r.clone()));
                assert(event_views(events@) =~= event_views(e0).push(EventView::Reasoning(r@)));
            },
            None => {},
        }
        match delta.array_at("tool_calls") {
            Some(tcs) => self.add_fragments(tcs),
            None => {},
        }
    }

    /// The choices of one frame, read in order.
    fn read_choices(&mut self, cs: &Vec<Json>, events: &mut Vec<Event>)
        ensures
            ({
                let p = choices_fold(
                    Progress {
                        calls: call_views(old(self).calls@),
                        finish_reason: ov(old(self).finish_reason),
                        events: event_views(old(events)@),
                    },
                    cs@,
                );
                &&& call_views(final(self).calls@) == p.calls
                &&& ov(final(self).finish_reason) == p.finish_reason
                &&& event_views(final(events)@) == p.events
                &&& final(self).done == old(self).done
            }),
    {
        let ghost p0 = Progress {
            calls: call_views(self.calls@),
            finish_reason: ov(self.finish_reason),
            events: event_views(events@),
        };
        let mut i: usize = 0;
        assert(cs@.subrange(0, 0) =~= Seq::<Json>::empty());
        while i < cs.len()
            invariant
                i <= cs@.len(),
                ({
                    let p = choices_fold(p0, cs@.subrange(0, i as int));
                    &&& call_views(self.calls@) == p.calls
                    &&& ov(self.finish_reason) == p.finish_reason
                    &&& event_views(events@) == p.events
                }),
                self.done == old(self).done,
            decreases cs@.len() - i,
        {
            self.read_choice(&cs[i], events);
            assert(cs@.subrange(0, i + 1).drop_last() =~= cs@.subrange(0, i as int));
            i = i + 1;
        }
        assert(cs@.subrange(0, cs@.len() as int) =~= cs@);
    }

    /// One frame of the stream, read as JSON: its usage, and the text, reasoning and tool-call
    /// fragments of its choices, in the order they stand.
    pub fn read_chunk(&mut self, chunk: &Json) -> (events: Vec<Event>)
        ensures
            (final(self)@, event_views(events@)) == chunk_spec(old(self)@, *chunk),
    {
        let mut events: Vec<Event> = Vec::new();
        match chunk.get("usage") {
            Some(u) => if !u.is_null() {
                events.push(Event::Usage(usage_from(u)));
            },
            None => {},
        }
        assert(event_views(events@) =~= (match crate::json::field(*chunk, "usage"@) {
            Some(u) => if u is Null {
                Seq::<EventView>::empty()
            } else {
                seq![EventView::Usage(usage_spec(u))]
            },
            None => Seq::<EventView>::empty(),
        }));
        match chunk.array_at("choices") {
            None => events,
            Some(cs) => {
                self.read_choices(cs, &mut events);
                events
            },
        }
    }

    /// Parse one line, returning the events it produced. Lines that are not `data:`,
    /// keep-alives and payloads that are not JSON are passed over (a payload that starts like
    /// a JSON object and does not parse is reported as a warning); `data: [DONE]` marks the
    /// stream done.
    pub fn feed_line(&mut self, line: &str) -> (events: Vec<Event>)
        ensures
            (final(self)@, event_views(events@)) == feed_spec(old(self)@, line@),
    {
        let v = chars_of(line);
        let n = v.len();
        let prefix = chars_of("data:");
        assert(v@.subrange(0, n as int) =~= v@);
        if !crate::text::range_starts_with(&v, 0, n, &prefix) {
            let e: Vec<Event> = Vec::new();
            assert(event_views(e@) =~= Seq::<EventView>::empty());
            return e;
        }
        let rest = string_of_range(&v, prefix.len(), n);
        let data = trim_str(rest.as_str());
        let d = chars_of(data.as_str());
        let mut events: Vec<Event> = Vec::new();
        assert(event_views(events@) =~= Seq::<EventView>::empty());
        if d.len() == 0 {
            return events;
        }
        if crate::text::eq_str(&d, "[DONE]") {
            self.done = true;
            return events;
        }
        match Json::parse(data.as_str()) {
            Err(e) => {
                proof {
                    reveal_strlit("{");
                }
                if d[0] == '{' {
                    assert(data@.subrange(0, 1) =~= "{"@);
                    let mut out: Vec<char> = Vec::new();
                    extend_str(&mut out, "could not parse a stream frame from the provider: ");
                    extend_str(&mut out, e.as_str());
                    extend_str(&mut out, ". Raw: ");
                    let raw = truncate(data.as_str(), 200);
                    extend_str(&mut out, raw.as_str());
                    events.push(Event::Warning(string_of(&out)));
                    assert(event_views(events@) =~= seq![EventView::Warning(bad_frame(e@, data@))]);
                } else {
                    assert(!starts_with(data@, "{"@)) by {
                        assert(data@.subrange(0, 1)[0] == data@[0]);
                    }
                }
                events
            },
            Ok(chunk) => self.read_chunk(&chunk),
        }
    }

    /// The completed tool calls, as a start and the arguments for each, under one id, in
    /// increasing order of their index, each once. Call once the stream has ended; the parser
    /// holds no calls afterwards.
    pub fn finish(&mut self) -> (events: Vec<Event>)
        ensures
            key_order(in_index_order(old(self)@.calls), old(self)@.calls),
            event_views(events@) == finish_spec(in_index_order(old(self)@.calls)),
            final(self)@ == (ParserView { calls: Map::<u64, CallView>::empty(), ..old(self)@ }),
    {
        let mut calls: BTreeMap<u64, ToolCall> = BTreeMap::new();
        std::mem::swap(&mut calls, &mut self.calls);
        let ghost m = call_views(calls@);
        proof {
            lemma_index_keys_are_ordered();
        }
        let iter = calls.iter();
        let ghost all = vstd::std_specs::iter::IteratorSpec::remaining(&iter);
        let ghost c = all.map_values(|p: (&u64, &ToolCall)| (*p.0, p.1@));
        proof {
            lemma_listed_in_order(&calls, iter);
            assert(key_order(c, m));
            lemma_key_order_unique(c, in_index_order(m), m);
        }
        let mut events: Vec<Event> = Vec::new();
        assert(c.take(0) =~= Seq::<(u64, CallView)>::empty());
        assert(event_views(events@) =~= Seq::<EventView>::empty());
        for (index, call) in it: iter
            invariant
                it.seq() == all,
                c == all.map_values(|p: (&u64, &ToolCall)| (*p.0, p.1@)),
                event_views(events@) == finish_spec(c.take(it.index())),
        {
            assert(c[it.index()] == (*index, call@));
            let ghost e0 = events@;
            if chars_of(call.name.as_str()).len() > 0 {
                let id = if chars_of(call.id.as_str()).len() == 0 {
                    id_for(*index)
                } else {
                    call.id.clone()
                };
                let args = if is_blank(call.arguments.as_str()) {
                    "{}".to_owned()
                } else {
                    call.arguments.clone()
                };
                events.push(Event::ToolStart { id: id.clone(), name: call.name.clone() });
                events.push(Event::ToolArgs { id, args });
            }
            assert(event_views(events@) =~= event_views(e0) + finish_one(c[it.index()]));
            assert(c.take(it.index() + 1).drop_last() =~= c.take(it.index()));
        }
        assert(c.take(c.len() as int) =~= c);
        assert(call_views(self.calls@) =~= Map::<u64, CallView>::empty());
        events
    }
}

impl Default for StreamParser {
    fn default() -> (p: StreamParser)
        ensures
            !p@.done,
            p@.finish_reason is None,
    {
        StreamParser::new()
    }
}

/// Where the run of tool messages that starts at `j` ends.
pub open spec fn tools_end(ms: Seq<MessageView>, j: int) -> int
    decreases ms.len() - j,
{
    if j < 0 || j >= ms.len() || !(ms[j] is Tool) {
        j
    } else {
        tools_end(ms, j + 1)
    }
}

pub proof fn lemma_tools_end(ms: Seq<MessageView>, j: int)
    requires
        0 <= j,
    ensures
        j <= tools_end(ms, j),
        j <= ms.len() ==> tools_end(ms, j) <= ms.len(),
        forall|k: int| j <= k < tools_end(ms, j) ==> #[trigger] ms[k] is Tool,
        tools_end(ms, j) < ms.len() ==> !(ms[tools_end(ms, j)] is Tool),
    decreases ms.len() - j,
{
    if j < ms.len() && ms[j] is Tool {
        lemma_tools_end(ms, j + 1);
    }
}

/// The ids the tool messages answer.
pub open spec fn answered_ids(ms: Seq<MessageView>) -> Seq<Seq<char>> {
    ms.map_values(|m: MessageView| m->Tool_tool_call_id)
}

/// The answer put in for a tool call that never ran.
pub open spec fn never_ran(call: CallView) -> MessageView {
    MessageView::Tool {
        tool_call_id: call.id,
        content: "interrupted by the user: tool '"@ + call.name + "' was requested but never ran."@,
    }
}

/// An answer for each call whose id is not among the answered ones, in the calls' order.
pub open spec fn missing_answers(calls: Seq<CallView>, answered: Seq<Seq<char>>) -> Seq<
    MessageView,
>
    decreases calls.len(),
{
    if calls.len() == 0 {
        Seq::<MessageView>::empty()
    } else {
        missing_answers(calls.drop_last(), answered) + if answered.contains(calls.last().id) {
            Seq::<MessageView>::empty()
        } else {
            seq![never_ran(calls.last())]
        }
    }
}

/// The conversation from the `i`-th message on, with every tool call of an assistant message
/// answered right after it: the tool messages that follow it are kept, and each call none of
/// them answers gets an answer saying it never ran.
pub open spec fn repaired(ms: Seq<MessageView>, i: int) -> Seq<MessageView>
    decreases ms.len() - i,
{
    if i < 0 || i >= ms.len() {
        Seq::<MessageView>::empty()
    } else {
        match ms[i] {
            MessageView::Assistant { tool_calls, .. } => if tool_calls.len() == 0 {
                seq![ms[i]] + repaired(ms, i + 1)
            } else {
                let next = tools_end(ms, i + 1);
                proof {
                    lemma_tools_end(ms, i + 1);
                }
                seq![ms[i]] + ms.subrange(i + 1, next) + missing_answers(
                    tool_calls,
                    answered_ids(ms.subrange(i + 1, next)),
                ) + repaired(ms, next)
            },
            _ => seq![ms[i]] + repaired(ms, i + 1),
        }
    }
}

/// The answers for the calls none of `answered` answers.
fn answer_missing(calls: &Vec<ToolCall>, answered: &Vec<String>, out: &mut Vec<Message>)
    ensures
        message_views(final(out)@) == message_views(old(out)@) + missing_answers(
            tool_call_views(calls@),
            crate::patch::string_views(answered@),
        ),
{
    let ghost o0 = message_views(out@);
    let ghost cs = tool_call_views(calls@);
    let ghost ans = crate::patch::string_views(answered@);
    let mut i: usize = 0;
    assert(cs.subrange(0, 0) =~= Seq::<CallView>::empty());
    assert(o0 + missing_answers(cs.subrange(0, 0), ans) =~= o0);
    while i < calls.len()
        invariant
            i <= calls@.len(),
            cs == tool_call_views(calls@),
            ans == crate::patch::string_views(answered@),
            message_views(out@) == o0 + missing_answers(cs.subrange(0, i as int), ans),
        decreases calls@.len() - i,
    {
        let call = &calls[i];
        assert(cs[i as int] == call@);
        let target = chars_of(call.id.as_str());
        let mut found = false;
        let mut j: usize = 0;
        while j < answered.len()
            invariant
                j <= answered@.len(),
                target@ == call.id@,
                ans == crate::patch::string_views(answered@),
                found == ans.subrange(0, j as int).contains(call.id@),
            decreases answered@.len() - j,
        {
            let here = chars_of(answered[j].as_str());
            if crate::text::chars_eq(&here, &target) {
                found = true;
            }
            proof {
                let before = ans.subrange(0, j as int);
                let now = ans.subrange(0, j + 1);
                assert(now =~= before.push(ans[j as int]));
                if before.contains(call.id@) {
                    let w = choose|w: int| 0 <= w < before.len() && before[w] == call.id@;
                    assert(now[w] == call.id@);
                }
                if now.contains(call.id@) && !before.contains(call.id@) {
                    let w = choose|w: int| 0 <= w < now.len() && now[w] == call.id@;
                    assert(w == j);
                }
                if here@ == target@ {
                    assert(now[j as int] == call.id@);
                }
            }
            j = j + 1;
        }
        assert(ans.subrange(0, answered@.len() as int) =~= ans);
        let ghost before = message_views(out@);
        if !found {
            let mut text: Vec<char> = Vec::new();
            extend_str(&mut text, "interrupted by the user: tool '");
            extend_str(&mut text, call.name.as_str());
            extend_str(&mut text, "' was requested but never ran.");
            out.push(Message::Tool { tool_call_id: call.id.clone(), content: string_of(&text) });
            assert(message_views(out@) =~= before.push(never_ran(call@)));
        }
        assert(cs.subrange(0, i + 1).drop_last() =~= cs.subrange(0, i as int));
        i = i + 1;
    }
    assert(cs.subrange(0, calls@.len() as int) =~= cs);
}

/// Whether a message is a tool's answer.
fn is_tool_message(m: &Message) -> (b: bool)
    ensures
        b == (m@ is Tool),
{
    match m {
        Message::Tool { .. } => true,
        _ => false,
    }
}

/// Guarantee the shape an OpenAI-compatible API insists on: every tool call an assistant
/// message asked for is answered by a tool message right after it.
pub fn ensure_tool_calls_are_answered(messages: &[Message]) -> (out: Vec<Message>)
    ensures
        message_views(out@) == repaired(message_views(messages@), 0),
{
    let ghost ms = message_views(messages@);
    let mut out: Vec<Message> = Vec::new();
    let mut index: usize = 0;
    assert(message_views(out@) =~= Seq::<MessageView>::empty());
    while index < messages.len()
        invariant
            index <= messages@.len(),
            ms == message_views(messages@),
            message_views(out@) + repaired(ms, index as int) == repaired(ms, 0),
        decreases messages@.len() - index,
    {
        let message = &messages[index];
        assert(ms[index as int] == message@);
        let ghost o0 = message_views(out@);
        out.push(message.duplicate());
        assert(message_views(out@) =~= o0.push(message@));
        match message {
            Message::Assistant { tool_calls, .. } => {
                if tool_calls.len() == 0 {
                    assert(tool_call_views(tool_calls@).len() == 0);
                    assert(message_views(out@) + repaired(ms, index + 1) =~= o0 + repaired(
                        ms,
                        index as int,
                    ));
                    index = index + 1;
                } else {
                    let mut answered: Vec<String> = Vec::new();
                    let mut next = index + 1;
                    proof {
                        lemma_tools_end(ms, index + 1);
                    }
                    let ghost end = tools_end(ms, index + 1);
                    while next < messages.len() && is_tool_message(&messages[next])
                        invariant
                            index + 1 <= next <= end <= messages@.len(),
                            end == tools_end(ms, index + 1),
                            ms == message_views(messages@),
                            forall|k: int| index + 1 <= k < end ==> #[trigger] ms[k] is Tool,
                            end < ms.len() ==> !(ms[end] is Tool),
                            message_views(out@) == o0.push(message@) + ms.subrange(
                                index + 1,
                                next as int,
                            ),
                            crate::patch::string_views(answered@) == answered_ids(
                                ms.subrange(index + 1, next as int),
                            ),
                        decreases messages@.len() - next,
                    {
                        let m = &messages[next];
                        assert(ms[next as int] == m@);
                        assert(ms.subrange(index + 1, next + 1) =~= ms.subrange(
                            index + 1,
                            next as int,
                        ).push(ms[next as int]));
                        match m {
                            Message::Tool { tool_call_id, .. } => {
                                let ghost a0 = answered@;
                                answered.push(tool_call_id.clone());
                                assert(crate::patch::string_views(answered@) =~= crate::patch::string_views(a0).push(tool_call_id@));
                                assert(answered_ids(ms.subrange(index + 1, next + 1)) =~= answered_ids(
                                    ms.subrange(index + 1, next as int),
                                ).push(tool_call_id@));
                            },
                            _ => {},
                        }
                        let ghost o1 = message_views(out@);
                        out.push(m.duplicate());
                        assert(message_views(out@) =~= o1.push(m@));
                        next = next + 1;
                    }
                    assert(next == end) by {
                        if next < end {
                            assert(ms[next as int] is Tool);
                            assert(ms[next as int] == messages@[next as int]@);
                        }
                    }
                    answer_missing(tool_calls, &answered, &mut out);
                    assert(message_views(out@) + repaired(ms, next as int) =~= o0 + repaired(
                        ms,
                        index as int,
                    ));
                    index = next;
                }
            },
            _ => {
                assert(message_views(out@) + repaired(ms, index + 1) =~= o0 + repaired(
                    ms,
                    index as int,
                ));
                index = index + 1;
            },
        }
    }
    out
}

// =======================================================================================
// The body of a completion request
// =======================================================================================

/// A tool as the request offers it, by its views: name, description, parameter schema.
pub open spec fn tool_views(tools: Seq<(String, String, Json)>) -> Seq<(Seq<char>, Seq<char>, Json)> {
    tools.map_values(|t: (String, String, Json)| (t.0@, t.1@, t.2))
}

/// Whether `j` is a tool as the request offers it:
/// `{"type": "function", "function": {"name", "description", "parameters"}}`.
pub open spec fn wire_tool(j: Json, t: (Seq<char>, Seq<char>, Json)) -> bool {
    &&& has_keys(j, seq!["type"@, "function"@])
    &&& is_text(j->Object_0@[0].1, "function"@)
    &&& has_keys(j->Object_0@[1].1, seq!["name"@, "description"@, "parameters"@])
    &&& is_text(j->Object_0@[1].1->Object_0@[0].1, t.0)
    &&& is_text(j->Object_0@[1].1->Object_0@[1].1, t.1)
    &&& same(j->Object_0@[1].1->Object_0@[2].1, t.2)
}

/// Whether the reasoning field asked for is the key `k`.
pub open spec fn asked_for(asked: Option<(Seq<char>, Seq<char>)>, k: Seq<char>) -> bool {
    asked matches Some((f, _)) && f == k
}

/// The key `k` of a request, when it is sent: when `on`, and the reasoning field asked for
/// does not take its place.
pub open spec fn sent_key(k: Seq<char>, on: bool, asked: Option<(Seq<char>, Seq<char>)>) -> Seq<
    Seq<char>,
> {
    if on && !asked_for(asked, k) {
        seq![k]
    } else {
        Seq::empty()
    }
}

/// The keys of a request body, in the order they are written: the model, the messages,
/// streaming and its usage frame; the tools when there are any; the JSON response format
/// when it is asked for; and last the reasoning field, when a level and a field are both set.
pub open spec fn request_keys(
    with_tools: bool,
    json_mode: bool,
    asked: Option<(Seq<char>, Seq<char>)>,
) -> Seq<Seq<char>> {
    sent_key("model"@, true, asked) + sent_key("messages"@, true, asked) + sent_key(
        "stream"@,
        true,
        asked,
    ) + sent_key("stream_options"@, true, asked) + sent_key("tools"@, with_tools, asked)
        + sent_key("response_format"@, json_mode, asked) + match asked {
        Some((f, _)) => seq![f],
        None => Seq::empty(),
    }
}

/// Whether the value `v` is what a request body holds under the key `k`.
pub open spec fn request_member(
    k: Seq<char>,
    v: Json,
    model: Seq<char>,
    sent: Seq<MessageView>,
    tools: Seq<(Seq<char>, Seq<char>, Json)>,
    asked: Option<(Seq<char>, Seq<char>)>,
) -> bool {
    if asked_for(asked, k) {
        is_text(v, asked.unwrap().1)
    } else if k == "model"@ {
        is_text(v, model)
    } else if k == "messages"@ {
        v matches Json::Array(l) && l@.len() == sent.len() && forall|i: int|
            0 <= i < l@.len() ==> wire_message(#[trigger] l@[i], sent[i])
    } else if k == "stream"@ {
        v matches Json::Bool(b) && b
    } else if k == "stream_options"@ {
        has_keys(v, seq!["include_usage"@]) && (v->Object_0@[0].1 matches Json::Bool(b) && b)
    } else if k == "tools"@ {
        v matches Json::Array(l) && l@.len() == tools.len() && forall|i: int|
            0 <= i < l@.len() ==> wire_tool(#[trigger] l@[i], tools[i])
    } else if k == "response_format"@ {
        has_keys(v, seq!["type"@]) && is_text(v->Object_0@[0].1, "json_object"@)
    } else {
        false
    }
}

/// Whether `j` is the body of a streamed completion request for the model, over the
/// conversation with every tool call answered (`repaired`), offering the tools.
pub open spec fn is_chat_request(
    j: Json,
    model: Seq<char>,
    ms: Seq<MessageView>,
    tools: Seq<(Seq<char>, Seq<char>, Json)>,
    json_mode: bool,
    asked: Option<(Seq<char>, Seq<char>)>,
) -> bool {
    &&& has_keys(j, request_keys(tools.len() > 0, json_mode, asked))
    &&& forall|i: int|
        0 <= i < j->Object_0@.len() ==> request_member(
            (#[trigger] j->Object_0@[i]).0@,
            j->Object_0@[i].1,
            model,
            repaired(ms, 0),
            tools,
            asked,
        )
}

proof fn lemma_request_key_texts()
    ensures
        "model"@.len() == 5 && "model"@[0] == 'm',
        "messages"@.len() == 8,
        "stream"@.len() == 6,
        "stream_options"@.len() == 14,
        "tools"@.len() == 5 && "tools"@[0] == 't',
        "response_format"@.len() == 15,
{
    reveal_strlit("model");
    reveal_strlit("messages");
    reveal_strlit("stream");
    reveal_strlit("stream_options");
    reveal_strlit("tools");
    reveal_strlit("response_format");
}

/// Whether the reasoning field asked for is the key `k`.
fn is_asked_for(asked: &Option<(String, String)>, k: &str) -> (b: bool)
    ensures
        b == (asked matches Some(p) && p.0@ == k@),
{
    match asked {
        Some(p) => crate::text::chars_eq(&chars_of(p.0.as_str()), &chars_of(k)),
        None => false,
    }
}

/// The body of one completion request: the only place a request is put together, so that
/// what is previewed is what is sent. Every tool call in the conversation is answered first.
pub fn request_body(
    model: &str,
    messages: &[Message],
    tools: &[(String, String, Json)],
    json_mode: bool,
    thinking: &Thinking,
) -> (j: Json)
    ensures
        is_chat_request(
            j,
            model@,
            message_views(messages@),
            tool_views(tools@),
            json_mode,
            asked_spec(thinking.level@, thinking.field@),
        ),
{
    let asked = thinking.asked();
    let ghost a = asked_spec(thinking.level@, thinking.field@);
    let ghost tv = tool_views(tools@);
    let ghost sent = repaired(message_views(messages@), 0);
    proof {
        lemma_request_key_texts();
    }
    let mut m: Vec<(String, Json)> = Vec::new();
    let ghost keys: Seq<Seq<char>> = Seq::empty();
    if !is_asked_for(&asked, "model") {
        m.push(("model".to_owned(), crate::json::text(model)));
    }
    proof {
        keys = sent_key("model"@, true, a);
    }
    assert(m@.len() == keys.len());
    if !is_asked_for(&asked, "messages") {
        let answered = ensure_tool_calls_are_answered(messages);
        let mut l: Vec<Json> = Vec::new();
        let mut i: usize = 0;
        while i < answered.len()
            invariant
                i <= answered@.len(),
                l@.len() == i,
                message_views(answered@) == sent,
                forall|k: int| 0 <= k < i ==> wire_message(#[trigger] l@[k], sent[k]),
            decreases answered@.len() - i,
        {
            assert(sent[i as int] == answered@[i as int]@);
            l.push(answered[i].wire());
            i = i + 1;
        }
        m.push(("messages".to_owned(), Json::Array(l)));
    }
    proof {
        keys = keys + sent_key("messages"@, true, a);
    }
    if !is_asked_for(&asked, "stream") {
        m.push(("stream".to_owned(), Json::Bool(true)));
    }
    proof {
        keys = keys + sent_key("stream"@, true, a);
    }
    if !is_asked_for(&asked, "stream_options") {
        let mut o: Vec<(String, Json)> = Vec::new();
        o.push(("include_usage".to_owned(), Json::Bool(true)));
        m.push(("stream_options".to_owned(), Json::Object(o)));
    }
    proof {
        keys = keys + sent_key("stream_options"@, true, a);
    }
    if tools.len() > 0 && !is_asked_for(&asked, "tools") {
        let mut l: Vec<Json> = Vec::new();
        let mut i: usize = 0;
        while i < tools.len()
            invariant
                i <= tools@.len(),
                l@.len() == i,
                tv == tool_views(tools@),
                forall|k: int| 0 <= k < i ==> wire_tool(#[trigger] l@[k], tv[k]),
            decreases tools@.len() - i,
        {
            let t = &tools[i];
            let mut f: Vec<(String, Json)> = Vec::new();
            f.push(("name".to_owned(), crate::json::text(t.0.as_str())));
            f.push(("description".to_owned(), crate::json::text(t.1.as_str())));
            f.push(("parameters".to_owned(), crate::json::copy_json(&t.2)));
            let mut w: Vec<(String, Json)> = Vec::new();
            w.push(("type".to_owned(), crate::json::text("function")));
            w.push(("function".to_owned(), Json::Object(f)));
            l.push(Json::Object(w));
            i = i + 1;
        }
        m.push(("tools".to_owned(), Json::Array(l)));
    }
    proof {
        keys = keys + sent_key("tools"@, tv.len() > 0, a);
    }
    if json_mode && !is_asked_for(&asked, "response_format") {
        let mut o: Vec<(String, Json)> = Vec::new();
        o.push(("type".to_owned(), crate::json::text("json_object")));
        m.push(("response_format".to_owned(), Json::Object(o)));
    }
    proof {
        keys = keys + sent_key("response_format"@, json_mode, a);
    }
    match asked {
        Some((f, l)) => {
            m.push((f, crate::json::text(l.as_str())));
        },
        None => {},
    }
    Json::Object(m)
}

// =======================================================================================
// Laws
// =======================================================================================

/// A body that says the account has no money left is classified as an exhausted balance,
/// whatever status carried it, and is never worth another attempt.
pub proof fn law_no_money_is_never_retried(status: u16, body: Seq<char>)
    requires
        says_no_money(body),
    ensures
        classify_spec(status, body) == ("insufficient_balance"@, false),
{
}

/// The only failures classified as not worth retrying are the ones that cannot succeed by
/// waiting: an exhausted balance, a key problem, a client error, or an unknown status that
/// was never transient.
pub proof fn law_what_is_retried(status: u16, body: Seq<char>)
    ensures
        classify_spec(status, body).1 <==> (!says_no_money(body) && status != 402 && transient_spec(
            status,
        )),
{
}

/// The wait between attempts is between one and sixteen seconds, and never shrinks as the
/// attempts go on.
pub proof fn law_backoff_is_bounded_and_grows(a: u32, b: u32)
    requires
        a <= b,
    ensures
        1 <= retry_delay_spec(a) <= 16,
        retry_delay_spec(a) <= retry_delay_spec(b),
{
}

/// Every tool start is followed by the arguments of the same call, under the same id, and
/// every set of arguments follows the start of its call.
pub open spec fn paired(evs: Seq<EventView>) -> bool {
    &&& forall|i: int|
        0 <= i < evs.len() && (#[trigger] evs[i]) is ToolStart ==> i + 1 < evs.len()
            && evs[i + 1] is ToolArgs && evs[i + 1]->ToolArgs_id == evs[i]->ToolStart_id
    &&& forall|i: int|
        0 <= i < evs.len() && (#[trigger] evs[i]) is ToolArgs ==> i >= 1 && evs[i - 1] is ToolStart
            && evs[i - 1]->ToolStart_id == evs[i]->ToolArgs_id
}

proof fn lemma_paired_concat(a: Seq<EventView>, b: Seq<EventView>)
    requires
        paired(a),
        paired(b),
        a.len() == 0 || !(a.last() is ToolStart),
    ensures
        paired(a + b),
{
    let c = a + b;
    assert forall|i: int| 0 <= i < c.len() && (#[trigger] c[i]) is ToolStart implies i + 1 < c.len()
        && c[i + 1] is ToolArgs && c[i + 1]->ToolArgs_id == c[i]->ToolStart_id by {
        if i < a.len() {
            assert(a[i] is ToolStart);
            assert(c[i + 1] == a[i + 1]);
        } else {
            assert(b[i - a.len()] is ToolStart);
            assert(c[i + 1] == b[i - a.len() + 1]);
        }
    }
    assert forall|i: int| 0 <= i < c.len() && (#[trigger] c[i]) is ToolArgs implies i >= 1 && c[i
        - 1] is ToolStart && c[i - 1]->ToolStart_id == c[i]->ToolArgs_id by {
        if i < a.len() {
            assert(a[i] is ToolArgs);
        } else {
            let j = i - a.len();
            assert(b[j] is ToolArgs);
            assert(j >= 1);
            assert(c[i - 1] == b[j - 1]);
        }
    }
}

proof fn lemma_finish_paired(c: Seq<(u64, CallView)>)
    ensures
        paired(finish_spec(c)),
        finish_spec(c).len() == 0 || finish_spec(c).last() is ToolArgs,
    decreases c.len(),
{
    if c.len() > 0 {
        lemma_finish_paired(c.drop_last());
        let one = finish_one(c.last());
        assert(paired(one));
        lemma_paired_concat(finish_spec(c.drop_last()), one);
        let all = finish_spec(c.drop_last()) + one;
        if one.len() > 0 {
            assert(all.last() == one.last());
        }
    }
}

/// The events of a finished stream come in pairs: the start of a call and its arguments,
/// under one id, so that a consumer matching them by id never loses the arguments.
pub proof fn law_start_and_arguments_share_an_id(p: ParserView)
    ensures
        paired(finish_spec(in_index_order(p.calls))),
{
    lemma_finish_paired(in_index_order(p.calls));
}

/// A parser that has read nothing.
pub open spec fn fresh_parser() -> ParserView {
    ParserView { calls: Map::<u64, CallView>::empty(), done: false, finish_reason: None }
}

/// The parser after the lines, fed one after another.
pub open spec fn after_lines(s: ParserView, lines: Seq<Seq<char>>) -> ParserView
    decreases lines.len(),
{
    if lines.len() == 0 {
        s
    } else {
        feed_spec(after_lines(s, lines.drop_last()), lines.last()).0
    }
}

/// The parser after `finish`: the same, with no call left.
pub open spec fn finished(s: ParserView) -> ParserView {
    ParserView { calls: Map::<u64, CallView>::empty(), ..s }
}

/// Whatever lines a stream brings, the tool calls come out once each, in order of their
/// stream index: there is one listing of the calls held in increasing order of index (the
/// one `finish` emits from, which it also shows to exist), it gives, for each call that has
/// a name, its start and its arguments under one id, and a second `finish` right after gives
/// nothing.
pub proof fn law_finish_gives_each_call_once_in_index_order(
    lines: Seq<Seq<char>>,
    listing: Seq<(u64, CallView)>,
)
    requires
        key_order(listing, after_lines(fresh_parser(), lines).calls),
    ensures
        listing == in_index_order(after_lines(fresh_parser(), lines).calls),
        paired(finish_spec(listing)),
        finish_spec(in_index_order(finished(after_lines(fresh_parser(), lines)).calls))
            == Seq::<EventView>::empty(),
{
    let m = after_lines(fresh_parser(), lines).calls;
    lemma_key_order_unique(listing, in_index_order(m), m);
    lemma_finish_paired(listing);
    let none = Map::<u64, CallView>::empty();
    assert(key_order(Seq::<(u64, CallView)>::empty(), none));
    lemma_key_order_unique(Seq::<(u64, CallView)>::empty(), in_index_order(none), none);
}

/// The tool calls of the assistant message at `p` (none for any other message) are each
/// answered by a tool message in the run of tool messages right after it.
pub open spec fn answers_follow(ms: Seq<MessageView>, p: int) -> bool {
    ms[p] is Assistant ==> forall|c: int|
        #![trigger ms[p]->Assistant_tool_calls[c]]
        0 <= c < ms[p]->Assistant_tool_calls.len() ==> exists|q: int|
            p < q < tools_end(ms, p + 1) && (#[trigger] ms[q])->Tool_tool_call_id
                == ms[p]->Assistant_tool_calls[c].id
}

/// Every tool call of every assistant message is answered right after it.
pub open spec fn every_call_answered(ms: Seq<MessageView>) -> bool {
    forall|p: int| 0 <= p < ms.len() ==> #[trigger] answers_follow(ms, p)
}

proof fn lemma_tools_end_shift(a: Seq<MessageView>, b: Seq<MessageView>, j: int)
    requires
        0 <= j <= b.len(),
    ensures
        tools_end(a + b, a.len() + j) == a.len() + tools_end(b, j),
    decreases b.len() - j,
{
    let c = a + b;
    if j < b.len() {
        assert(c[a.len() + j] == b[j]);
        if b[j] is Tool {
            lemma_tools_end_shift(a, b, j + 1);
        }
    }
}

proof fn lemma_tools_end_through(a: Seq<MessageView>, b: Seq<MessageView>, j: int)
    requires
        0 <= j <= a.len(),
        forall|k: int| j <= k < a.len() ==> #[trigger] a[k] is Tool,
    ensures
        tools_end(a + b, j) == a.len() + tools_end(b, 0),
    decreases a.len() - j,
{
    if j < a.len() {
        assert((a + b)[j] == a[j]);
        lemma_tools_end_through(a, b, j + 1);
    } else {
        lemma_tools_end_shift(a, b, 0);
    }
}

proof fn lemma_missing_answers(calls: Seq<CallView>, answered: Seq<Seq<char>>)
    ensures
        forall|k: int|
            0 <= k < missing_answers(calls, answered).len() ==> #[trigger] missing_answers(
                calls,
                answered,
            )[k] is Tool,
        forall|c: int|
            0 <= c < calls.len() ==> answered.contains(#[trigger] calls[c].id) || exists|q: int|
                0 <= q < missing_answers(calls, answered).len() && missing_answers(
                    calls,
                    answered,
                )[q]->Tool_tool_call_id == calls[c].id,
    decreases calls.len(),
{
    if calls.len() > 0 {
        let init = calls.drop_last();
        lemma_missing_answers(init, answered);
        let m0 = missing_answers(init, answered);
        let m = missing_answers(calls, answered);
        let tail = if answered.contains(calls.last().id) {
            Seq::<MessageView>::empty()
        } else {
            seq![never_ran(calls.last())]
        };
        assert(m == m0 + tail);
        assert forall|k: int| 0 <= k < m.len() implies #[trigger] m[k] is Tool by {
            if k < m0.len() {
                assert(m[k] == m0[k]);
            } else {
                assert(m[k] == tail[k - m0.len()]);
            }
        }
        assert forall|c: int| 0 <= c < calls.len() implies answered.contains(
            #[trigger] calls[c].id,
        ) || exists|q: int| 0 <= q < m.len() && m[q]->Tool_tool_call_id == calls[c].id by {
            if c < init.len() {
                assert(init[c] == calls[c]);
                if !answered.contains(calls[c].id) {
                    let q = choose|q: int|
                        0 <= q < m0.len() && m0[q]->Tool_tool_call_id == init[c].id;
                    assert(m[q] == m0[q]);
                }
            } else {
                assert(c == calls.len() - 1);
                if !answered.contains(calls[c].id) {
                    assert(m[m0.len() as int] == never_ran(calls.last()));
                }
            }
        }
    }
}

proof fn lemma_answered_ids(t: Seq<MessageView>, id: Seq<char>)
    requires
        answered_ids(t).contains(id),
    ensures
        exists|q: int| 0 <= q < t.len() && t[q]->Tool_tool_call_id == id,
{
    let q = choose|q: int| 0 <= q < answered_ids(t).len() && answered_ids(t)[q] == id;
    assert(t[q]->Tool_tool_call_id == id);
}

/// Everything of `r` keeps its answers when something that ends in no tool message is put
/// in front of it.
proof fn lemma_answered_suffix(a: Seq<MessageView>, r: Seq<MessageView>, p: int)
    requires
        every_call_answered(r),
        a.len() <= p < a.len() + r.len(),
    ensures
        answers_follow(a + r, p),
{
    let c = a + r;
    let j = p - a.len();
    assert(answers_follow(r, j));
    assert(c[p] == r[j]);
    if c[p] is Assistant {
        lemma_tools_end_shift(a, r, j + 1);
        lemma_tools_end(r, j + 1);
        assert forall|k: int|
            #![trigger c[p]->Assistant_tool_calls[k]]
            0 <= k < c[p]->Assistant_tool_calls.len() implies exists|q: int|
            p < q < tools_end(c, p + 1) && (#[trigger] c[q])->Tool_tool_call_id
                == c[p]->Assistant_tool_calls[k].id by {
            let q = choose|q: int|
                j < q < tools_end(r, j + 1) && (#[trigger] r[q])->Tool_tool_call_id
                    == r[j]->Assistant_tool_calls[k].id;
            assert(c[a.len() + q] == r[q]);
        }
    }
}

proof fn lemma_repaired_answered(ms: Seq<MessageView>, i: int)
    requires
        0 <= i,
    ensures
        every_call_answered(repaired(ms, i)),
    decreases ms.len() - i,
{
    if i < ms.len() {
        let out = repaired(ms, i);
        match ms[i] {
            MessageView::Assistant { tool_calls, .. } => {
                if tool_calls.len() == 0 {
                    lemma_repaired_answered(ms, i + 1);
                    let r = repaired(ms, i + 1);
                    let a = seq![ms[i]];
                    assert(out == a + r);
                    assert forall|p: int| 0 <= p < out.len() implies #[trigger] answers_follow(
                        out,
                        p,
                    ) by {
                        if p >= 1 {
                            lemma_answered_suffix(a, r, p);
                        }
                    }
                } else {
                    lemma_tools_end(ms, i + 1);
                    let next = tools_end(ms, i + 1);
                    lemma_repaired_answered(ms, next);
                    let t = ms.subrange(i + 1, next);
                    let m = missing_answers(tool_calls, answered_ids(t));
                    lemma_missing_answers(tool_calls, answered_ids(t));
                    let r = repaired(ms, next);
                    let a = seq![ms[i]] + t + m;
                    assert(out == a + r);
                    assert forall|k: int| 1 <= k < a.len() implies #[trigger] a[k] is Tool by {
                        if k < 1 + t.len() {
                            assert(a[k] == t[k - 1]);
                            assert(t[k - 1] == ms[i + k]);
                        } else {
                            assert(a[k] == m[k - 1 - t.len()]);
                        }
                    }
                    assert forall|p: int| 0 <= p < out.len() implies #[trigger] answers_follow(
                        out,
                        p,
                    ) by {
                        if p >= a.len() {
                            lemma_answered_suffix(a, r, p);
                        } else if p >= 1 {
                            assert(out[p] == a[p]);
                        } else {
                            assert(out[0] == ms[i]);
                            lemma_tools_end_through(a, r, 1);
                            assert forall|c: int|
                                #![trigger tool_calls[c]]
                                0 <= c < tool_calls.len() implies exists|q: int|
                                0 < q < tools_end(out, 1) && (#[trigger] out[q])->Tool_tool_call_id
                                    == tool_calls[c].id by {
                                if answered_ids(t).contains(tool_calls[c].id) {
                                    lemma_answered_ids(t, tool_calls[c].id);
                                    let q = choose|q: int|
                                        0 <= q < t.len() && t[q]->Tool_tool_call_id
                                            == tool_calls[c].id;
                                    assert(out[1 + q] == t[q]);
                                } else {
                                    let q = choose|q: int|
                                        0 <= q < m.len() && m[q]->Tool_tool_call_id
                                            == tool_calls[c].id;
                                    assert(out[1 + t.len() + q] == m[q]);
                                }
                            }
                        }
                    }
                }
            },
            _ => {
                lemma_repaired_answered(ms, i + 1);
                let r = repaired(ms, i + 1);
                let a = seq![ms[i]];
                assert(out == a + r);
                assert forall|p: int| 0 <= p < out.len() implies #[trigger] answers_follow(out, p) by {
                    if p >= 1 {
                        lemma_answered_suffix(a, r, p);
                    }
                }
            },
        }
    }
}

/// After the repair, every tool call an assistant message asked for is answered by a tool
/// message in the run of tool messages right after it -- the shape the API insists on.
pub proof fn law_every_tool_call_is_answered(ms: Seq<MessageView>)
    ensures
        every_call_answered(repaired(ms, 0)),
{
    lemma_repaired_answered(ms, 0);
}

/// Whether the conversation `a` is kept, in order, in `b`, with nothing but tool messages put
/// in between: `b` is `a` with tool answers inserted.
pub open spec fn kept_in(a: Seq<MessageView>, b: Seq<MessageView>) -> bool
    decreases b.len(),
{
    if b.len() == 0 {
        a.len() == 0
    } else if a.len() > 0 && b[0] == a[0] && kept_in(a.drop_first(), b.drop_first()) {
        true
    } else {
        b[0] is Tool && kept_in(a, b.drop_first())
    }
}

proof fn lemma_kept_same_prefix(p: Seq<MessageView>, a: Seq<MessageView>, b: Seq<MessageView>)
    requires
        kept_in(a, b),
    ensures
        kept_in(p + a, p + b),
    decreases p.len(),
{
    if p.len() > 0 {
        lemma_kept_same_prefix(p.drop_first(), a, b);
        assert((p + a).drop_first() =~= p.drop_first() + a);
        assert((p + b).drop_first() =~= p.drop_first() + b);
        assert((p + a)[0] == (p + b)[0]);
    }
}

proof fn lemma_kept_tools_between(x: Seq<MessageView>, a: Seq<MessageView>, b: Seq<MessageView>)
    requires
        kept_in(a, b),
        forall|k: int| 0 <= k < x.len() ==> #[trigger] x[k] is Tool,
    ensures
        kept_in(a, x + b),
    decreases x.len(),
{
    if x.len() > 0 {
        lemma_kept_tools_between(x.drop_first(), a, b);
        assert((x + b).drop_first() =~= x.drop_first() + b);
        assert((x + b)[0] == x[0]);
    }
}

proof fn lemma_repaired_kept(ms: Seq<MessageView>, i: int)
    requires
        0 <= i <= ms.len(),
    ensures
        kept_in(ms.subrange(i, ms.len() as int), repaired(ms, i)),
    decreases ms.len() - i,
{
    if i < ms.len() {
        let tail = ms.subrange(i + 1, ms.len() as int);
        let here = ms.subrange(i, ms.len() as int);
        assert(here =~= seq![ms[i]] + tail);
        let out = repaired(ms, i);
        match ms[i] {
            MessageView::Assistant { tool_calls, .. } => {
                if tool_calls.len() == 0 {
                    lemma_repaired_kept(ms, i + 1);
                    lemma_kept_same_prefix(seq![ms[i]], tail, repaired(ms, i + 1));
                } else {
                    lemma_tools_end(ms, i + 1);
                    let next = tools_end(ms, i + 1);
                    lemma_repaired_kept(ms, next);
                    let t = ms.subrange(i + 1, next);
                    let m = missing_answers(tool_calls, answered_ids(t));
                    lemma_missing_answers(tool_calls, answered_ids(t));
                    let r = repaired(ms, next);
                    let rest = ms.subrange(next, ms.len() as int);
                    lemma_kept_tools_between(m, rest, r);
                    lemma_kept_same_prefix(seq![ms[i]] + t, rest, m + r);
                    assert(here =~= seq![ms[i]] + t + rest);
                    assert(out =~= seq![ms[i]] + t + (m + r));
                }
            },
            _ => {
                lemma_repaired_kept(ms, i + 1);
                lemma_kept_same_prefix(seq![ms[i]], tail, repaired(ms, i + 1));
            },
        }
    } else {
        assert(ms.subrange(i, ms.len() as int) =~= Seq::<MessageView>::empty());
    }
}

/// The repair keeps the conversation: every message sent is still there, in its order, and
/// the only messages it adds are tool answers.
pub proof fn law_the_conversation_is_kept_in_order(ms: Seq<MessageView>)
    ensures
        kept_in(ms, repaired(ms, 0)),
{
    lemma_repaired_kept(ms, 0);
    assert(ms.subrange(0, ms.len() as int) =~= ms);
}

/// The repair of a conversation looks only forward: what comes before where it starts does
/// not change it.
proof fn lemma_repaired_shift(a: Seq<MessageView>, b: Seq<MessageView>, j: int)
    requires
        0 <= j <= b.len(),
    ensures
        repaired(a + b, a.len() + j) == repaired(b, j),
    decreases b.len() - j,
{
    let c = a + b;
    let i = a.len() + j;
    if j < b.len() {
        assert(c[i] == b[j]);
        match b[j] {
            MessageView::Assistant { tool_calls, .. } => {
                if tool_calls.len() == 0 {
                    lemma_repaired_shift(a, b, j + 1);
                } else {
                    lemma_tools_end_shift(a, b, j + 1);
                    lemma_tools_end(b, j + 1);
                    let next = tools_end(b, j + 1);
                    lemma_repaired_shift(a, b, next);
                    assert(c.subrange(i + 1, a.len() + next) =~= b.subrange(j + 1, next));
                }
            },
            _ => {
                lemma_repaired_shift(a, b, j + 1);
            },
        }
    }
}

/// No answer is missing for calls whose ids are all answered.
proof fn lemma_nothing_missing(calls: Seq<CallView>, answered: Seq<Seq<char>>)
    requires
        forall|c: int| 0 <= c < calls.len() ==> answered.contains(#[trigger] calls[c].id),
    ensures
        missing_answers(calls, answered) == Seq::<MessageView>::empty(),
    decreases calls.len(),
{
    if calls.len() > 0 {
        let init = calls.drop_last();
        assert forall|c: int| 0 <= c < init.len() implies answered.contains(
            #[trigger] init[c].id,
        ) by {
            assert(init[c] == calls[c]);
        }
        lemma_nothing_missing(init, answered);
        assert(answered.contains(calls[calls.len() - 1].id));
        assert(missing_answers(calls, answered) =~= Seq::<MessageView>::empty());
    }
}

proof fn lemma_repaired_fixed(ms: Seq<MessageView>, i: int)
    requires
        0 <= i,
    ensures
        repaired(repaired(ms, i), 0) == repaired(ms, i),
    decreases ms.len() - i,
{
    if i < ms.len() {
        let out = repaired(ms, i);
        match ms[i] {
            MessageView::Assistant { tool_calls, .. } => {
                if tool_calls.len() == 0 {
                    lemma_repaired_fixed(ms, i + 1);
                    let r = repaired(ms, i + 1);
                    assert(out == seq![ms[i]] + r);
                    assert(out[0] == ms[i]);
                    lemma_repaired_shift(seq![ms[i]], r, 0);
                    assert(repaired(out, 0) =~= seq![ms[i]] + repaired(out, 1));
                } else {
                    lemma_tools_end(ms, i + 1);
                    let next = tools_end(ms, i + 1);
                    lemma_repaired_fixed(ms, next);
                    let t = ms.subrange(i + 1, next);
                    let ans = answered_ids(t);
                    let m = missing_answers(tool_calls, ans);
                    lemma_missing_answers(tool_calls, ans);
                    let r = repaired(ms, next);
                    let a = seq![ms[i]] + t + m;
                    assert(out == a + r);
                    assert forall|k: int| 1 <= k < a.len() implies #[trigger] a[k] is Tool by {
                        if k < 1 + t.len() {
                            assert(a[k] == t[k - 1]);
                            assert(t[k - 1] == ms[i + k]);
                        } else {
                            assert(a[k] == m[k - 1 - t.len()]);
                        }
                    }
                    // The run of tool answers after the call ends where the repair's did.
                    lemma_tools_end_through(a, r, 1);
                    if r.len() > 0 {
                        assert(r[0] == ms[next]);
                    }
                    assert(tools_end(r, 0) == 0);
                    let run = out.subrange(1, a.len() as int);
                    assert(run =~= t + m);
                    // Every call is now answered within that run.
                    let ans2 = answered_ids(run);
                    assert forall|c: int| 0 <= c < tool_calls.len() implies ans2.contains(
                        #[trigger] tool_calls[c].id,
                    ) by {
                        if ans.contains(tool_calls[c].id) {
                            let q = choose|q: int| 0 <= q < ans.len() && ans[q] == tool_calls[c].id;
                            assert(ans2[q] == run[q]->Tool_tool_call_id);
                            assert(run[q] == t[q]);
                        } else {
                            let q = choose|q: int|
                                0 <= q < m.len() && m[q]->Tool_tool_call_id == tool_calls[c].id;
                            assert(run[t.len() + q] == m[q]);
                            assert(ans2[t.len() + q] == tool_calls[c].id);
                        }
                    }
                    lemma_nothing_missing(tool_calls, ans2);
                    assert(out[0] == ms[i]);
                    lemma_repaired_shift(a, r, 0);
                    assert(repaired(out, 0) =~= seq![ms[i]] + run + Seq::<MessageView>::empty()
                        + repaired(out, a.len() as int));
                    assert(repaired(out, 0) =~= a + r);
                }
            },
            _ => {
                lemma_repaired_fixed(ms, i + 1);
                let r = repaired(ms, i + 1);
                assert(out == seq![ms[i]] + r);
                assert(out[0] == ms[i]);
                lemma_repaired_shift(seq![ms[i]], r, 0);
                assert(repaired(out, 0) =~= seq![ms[i]] + repaired(out, 1));
            },
        }
    } else {
        assert(repaired(ms, i) =~= Seq::<MessageView>::empty());
    }
}

/// A second repair adds nothing: once every call is answered, the conversation is sent as it
/// stands.
pub proof fn law_a_second_repair_adds_nothing(ms: Seq<MessageView>)
    ensures
        repaired(repaired(ms, 0), 0) == repaired(ms, 0),
{
    lemma_repaired_fixed(ms, 0);
}

// =======================================================================================
// Asking whether an account can be used
// =======================================================================================

/// What the account check asks next, or what it came to.
pub enum BalanceStep {
    /// Ask `GET <api root>/user/balance`.
    AskBalance,
    /// Ask `GET <api root>/models`.
    AskModels,
    /// The verdict.
    Found(Balance),
    /// The check failed.
    Failed(ProviderFailure),
}

/// Whether `b` is the balance read from a `/user/balance` answer: with no `is_available`
/// boolean there is no verdict (`none`); otherwise the verdict, and the figures of the first
/// entry of `balance_infos` (one currency is not summed with another).
pub open spec fn balance_is(b: Balance, v: Option<Json>) -> bool {
    let available = match v {
        Some(j) => match field(j, "is_available"@) {
            Some(a) => crate::json::bool_of(a),
            None => None,
        },
        None => None,
    };
    match available {
        None => b.usable is None && b.checked@ == "none"@ && b.currency is None && b.total is None
            && b.granted is None && b.topped_up is None,
        Some(ok) => {
            let info = match items_field(v.unwrap(), "balance_infos"@) {
                Some(all) => if all.len() > 0 {
                    Some(all[0])
                } else {
                    None
                },
                None => None,
            };
            &&& b.usable == Some(ok)
            &&& b.checked@ == "balance"@
            &&& match info {
                Some(x) => {
                    &&& ov(b.currency) == str_field(x, "currency"@)
                    &&& ov(b.total) == str_field(x, "total_balance"@)
                    &&& ov(b.granted) == str_field(x, "granted_balance"@)
                    &&& ov(b.topped_up) == str_field(x, "topped_up_balance"@)
                },
                None => b.currency is None && b.total is None && b.granted is None
                    && b.topped_up is None,
            }
        },
    }
}

/// A text member of a value, copied.
fn text_at(j: &Json, key: &str) -> (r: Option<String>)
    ensures
        ov(r) == str_field(*j, key@),
{
    match j.str_at(key) {
        Some(s) => Some(crate::text::string_of(&chars_of(s.as_str()))),
        None => None,
    }
}

/// The balance read from a `/user/balance` answer, given the value its body holds, if any.
pub fn balance_from_value(v: Option<&Json>) -> (b: Balance)
    ensures
        balance_is(
            b,
            match v {
                Some(j) => Some(*j),
                None => None,
            },
        ),
{
    let j = match v {
        Some(j) => j,
        None => {
            return Balance::verdict(None, "none");
        },
    };
    let available = match j.get("is_available") {
        Some(a) => a.as_bool(),
        None => None,
    };
    let ok = match available {
        Some(ok) => ok,
        None => {
            return Balance::verdict(None, "none");
        },
    };
    let mut b = Balance::verdict(Some(ok), "balance");
    match j.array_at("balance_infos") {
        Some(all) => if all.len() > 0 {
            let info = &all[0];
            b.currency = text_at(info, "currency");
            b.total = text_at(info, "total_balance");
            b.granted = text_at(info, "granted_balance");
            b.topped_up = text_at(info, "topped_up_balance");
        },
        None => {},
    }
    b
}

/// The message when an account check has no key to ask with.
pub open spec fn no_key_message(name: Seq<char>) -> Seq<char> {
    "provider '"@ + name + "' has no API key. Set `api_key` or `api_key_env` for it."@
}

/// The first step of an account check: with no key there is nothing to ask (`no_key`, not
/// worth retrying); otherwise the balance endpoint is asked first.
pub fn balance_first(name: &str, key: &str) -> (step: BalanceStep)
    ensures
        trim(key@).len() == 0 ==> (step matches BalanceStep::Failed(f) && f.code@ == "no_key"@
            && !f.retryable && f.message@ == no_key_message(name@)),
        trim(key@).len() > 0 ==> step is AskBalance,
{
    if crate::text::is_blank(key) {
        let mut m = chars_of("provider '");
        crate::text::extend_str(&mut m, name);
        crate::text::extend_str(&mut m, "' has no API key. Set `api_key` or `api_key_env` for it.");
        return BalanceStep::Failed(
            ProviderFailure { code: "no_key", retryable: false, message: crate::text::string_of(&m) },
        );
    }
    BalanceStep::AskBalance
}

/// Whether a status is a success (2xx).
pub open spec fn success(status: u16) -> bool {
    200 <= status < 300
}

/// After `/user/balance` answered: a success is read as a balance; a status other than
/// 404 or 405 is a failure, classified as a failed turn would be; 404 and 405 mean there is
/// no balance endpoint, so `/models` is asked.
pub fn after_balance(name: &str, status: u16, status_text: &str, body: &str) -> (step: BalanceStep)
    ensures
        success(status) ==> (step matches BalanceStep::Found(b) && balance_is(
            b,
            match crate::json::json_read(body@) {
                Ok(j) => Some(j),
                Err(_) => None,
            },
        )),
        !success(status) && status != 404 && status != 405 ==> (step matches BalanceStep::Failed(f)
            && (f.code@, f.retryable) == classify_spec(status, body@)),
        !success(status) && (status == 404 || status == 405) ==> step is AskModels,
{
    if 200 <= status && status < 300 {
        let parsed = Json::parse(body);
        let b = match &parsed {
            Ok(j) => balance_from_value(Some(j)),
            Err(_) => balance_from_value(None),
        };
        return BalanceStep::Found(b);
    }
    if status != 404 && status != 405 {
        return BalanceStep::Failed(ProviderFailure::from_response(name, status, status_text, body));
    }
    BalanceStep::AskModels
}

/// After `/models` answered: a success proves the key and the route (usable, checked by
/// `models`); 404 and 405 answer nothing usable (no verdict); anything else is a failure.
pub fn after_models(name: &str, status: u16, status_text: &str) -> (step: BalanceStep)
    ensures
        success(status) ==> (step matches BalanceStep::Found(b) && b.usable == Some(true)
            && b.checked@ == "models"@ && b.total is None && b.currency is None),
        !success(status) && (status == 404 || status == 405) ==> (step matches BalanceStep::Found(b)
            && b.usable is None && b.checked@ == "none"@ && b.total is None && b.currency is None),
        !success(status) && status != 404 && status != 405 ==> (step matches BalanceStep::Failed(f)
            && (f.code@, f.retryable) == classify_spec(status, ""@)),
{
    if 200 <= status && status < 300 {
        return BalanceStep::Found(Balance::verdict(Some(true), "models"));
    }
    if status == 404 || status == 405 {
        return BalanceStep::Found(Balance::verdict(None, "none"));
    }
    BalanceStep::Failed(ProviderFailure::from_response(name, status, status_text, ""))
}

// =======================================================================================
// A provider, as a run holds it
// =======================================================================================

/// A configured provider as a run holds it: its configuration, whether the run asks for a
/// JSON object, and the reasoning level in force. (The HTTP client that talks to it belongs
/// to the program around this library.)
#[derive(Debug)]
pub struct Provider {
    pub config: ProviderConfig,
    /// Whether this run asks for a JSON object (`--schema`): a property of every turn of the
    /// run, repair turns included.
    pub json_mode: bool,
    /// The reasoning level and the field it goes in.
    pub thinking: Thinking,
}

/// The proxy URL a client is given: the configured value, with `http://` in front when it
/// names no scheme.
pub open spec fn proxy_url_spec(proxy: Seq<char>) -> Seq<char> {
    if contains(proxy, "://"@) {
        proxy
    } else {
        "http://"@ + proxy
    }
}

/// The proxy URL a client is given for a configured proxy.
pub fn proxy_url(proxy: &str) -> (u: String)
    ensures
        u@ == proxy_url_spec(proxy@),
{
    let v = chars_of(proxy);
    if contains_chars(&v, &chars_of("://")) {
        string_of(&v)
    } else {
        let mut out = chars_of("http://");
        extend_chars(&mut out, &v);
        string_of(&out)
    }
}

impl Provider {
    /// A provider for a run: not asking for JSON, and at reasoning level `off` until the run
    /// sets one, with the field its configuration names.
    pub fn new(config: ProviderConfig) -> (p: Provider)
        ensures
            p.config == config,
            !p.json_mode,
            p.thinking.level@ == "off"@,
            p.thinking.field@ == config.thinking_field@,
    {
        let field = string_of(&chars_of(config.thinking_field.as_str()));
        Provider {
            config,
            json_mode: false,
            thinking: Thinking { level: String::from_str("off"), field },
        }
    }

    /// The configuration a run falls back to when none can be used: a provider named
    /// `unavailable` at an address nothing answers, with no key, no model and no proxy.
    pub fn fallback_config() -> (c: ProviderConfig)
        ensures
            c.name@ == "unavailable"@,
            c.base_url@ == "http://127.0.0.1:1"@,
            c.api_key@ == ""@,
            c.api_key_env is None,
            c.key_in_env is None,
            c.proxy is None,
            c.model@ == ""@,
            c.thinking_field@ == ""@,
    {
        ProviderConfig {
            name: String::from_str("unavailable"),
            base_url: String::from_str("http://127.0.0.1:1"),
            api_key: String::from_str(""),
            api_key_env: None,
            key_in_env: None,
            proxy: None,
            model: String::from_str(""),
            thinking_field: String::from_str(""),
        }
    }

    /// Ask for a JSON object instead of prose, or stop asking.
    pub fn expect_json(&mut self, on: bool)
        ensures
            final(self).json_mode == on,
            final(self).config == old(self).config,
            final(self).thinking == old(self).thinking,
    {
        self.json_mode = on;
    }

    /// Set the reasoning level for this run (trimmed), keeping the provider's field.
    pub fn set_thinking(&mut self, level: &str)
        ensures
            final(self).thinking.level@ == trim(level@),
            final(self).thinking.field == old(self).thinking.field,
            final(self).config == old(self).config,
            final(self).json_mode == old(self).json_mode,
    {
        self.thinking.level = trim_str(level);
    }

    /// The reasoning level in force.
    pub fn thinking(&self) -> (l: &str)
        ensures
            l@ == self.thinking.level@,
    {
        self.thinking.level.as_str()
    }

    /// The field this provider carries a level in, trimmed; empty when it carries none.
    pub fn thinking_field(&self) -> (f: String)
        ensures
            f@ == trim(self.thinking.field@),
    {
        trim_str(self.thinking.field.as_str())
    }

    /// The level and the field together.
    pub fn thinking_spec(&self) -> (t: &Thinking)
        ensures
            *t == self.thinking,
    {
        &self.thinking
    }

    /// The body this provider sends for a conversation and the tools offered: its model, its
    /// JSON mode and its reasoning level, built by `request_body`.
    pub fn body(&self, messages: &[Message], tools: &[(String, String, Json)]) -> (j: Json)
        ensures
            is_chat_request(
                j,
                self.config.model@,
                message_views(messages@),
                tool_views(tools@),
                self.json_mode,
                asked_spec(self.thinking.level@, self.thinking.field@),
            ),
    {
        request_body(self.config.model.as_str(), messages, tools, self.json_mode, &self.thinking)
    }

    /// The model asked for.
    pub fn model(&self) -> (m: &str)
        ensures
            m@ == self.config.model@,
    {
        self.config.model.as_str()
    }

    /// The provider's name.
    pub fn name(&self) -> (n: &str)
        ensures
            n@ == self.config.name@,
    {
        self.config.name.as_str()
    }
}

/// The arguments text a fragment carries, if any.
pub open spec fn fragment_arguments(tc: Json) -> Seq<char> {
    match field(tc, "function"@) {
        Some(f) => match str_field(f, "arguments"@) {
            Some(a) => a,
            None => Seq::empty(),
        },
        None => Seq::empty(),
    }
}

/// The arguments the fragments for `index` carry, in the order they came.
pub open spec fn arguments_for(tcs: Seq<Json>, index: u64) -> Seq<char>
    decreases tcs.len(),
{
    if tcs.len() == 0 {
        Seq::empty()
    } else {
        arguments_for(tcs.drop_last(), index) + if index_of(tcs.last()) == index {
            fragment_arguments(tcs.last())
        } else {
            Seq::empty()
        }
    }
}

/// The arguments held for `index` before any fragment.
pub open spec fn arguments_before(c: Map<u64, CallView>, index: u64) -> Seq<char> {
    if c.contains_key(index) {
        c[index].arguments
    } else {
        Seq::empty()
    }
}

proof fn lemma_fold_arguments(c: Map<u64, CallView>, tcs: Seq<Json>, index: u64)
    ensures
        tool_calls_fold(c, tcs).contains_key(index) ==> tool_calls_fold(c, tcs)[index].arguments
            == arguments_before(c, index) + arguments_for(tcs, index),
        !tool_calls_fold(c, tcs).contains_key(index) ==> arguments_for(tcs, index).len() == 0
            && !c.contains_key(index),
    decreases tcs.len(),
{
    if tcs.len() == 0 {
        assert(arguments_before(c, index) + arguments_for(tcs, index) =~= arguments_before(c, index));
    } else {
        let init = tcs.drop_last();
        lemma_fold_arguments(c, init, index);
        lemma_fold_names_every_index(c, init);
        let before = tool_calls_fold(c, init);
        let tc = tcs.last();
        if index_of(tc) == index {
            let prior = if before.contains_key(index) {
                before[index]
            } else {
                no_call()
            };
            assert(fill_call(prior, tc).arguments == prior.arguments + fragment_arguments(tc));
            assert(arguments_before(c, index) + arguments_for(tcs, index) =~= arguments_before(
                c,
                index,
            ) + arguments_for(init, index) + fragment_arguments(tc));
        } else {
            assert(arguments_for(tcs, index) =~= arguments_for(init, index));
        }
    }
}

proof fn lemma_fold_names_every_index(c: Map<u64, CallView>, tcs: Seq<Json>)
    ensures
        forall|k: u64| c.contains_key(k) ==> #[trigger] tool_calls_fold(c, tcs).contains_key(k),
        forall|j: int|
            0 <= j < tcs.len() ==> tool_calls_fold(c, tcs).contains_key(index_of(#[trigger] tcs[j])),
    decreases tcs.len(),
{
    if tcs.len() > 0 {
        let init = tcs.drop_last();
        lemma_fold_names_every_index(c, init);
        assert forall|k: u64| c.contains_key(k) implies #[trigger] tool_calls_fold(
            c,
            tcs,
        ).contains_key(k) by {
            assert(tool_calls_fold(c, init).contains_key(k));
        }
        assert forall|j: int| 0 <= j < tcs.len() implies tool_calls_fold(c, tcs).contains_key(
            index_of(#[trigger] tcs[j]),
        ) by {
            if j < init.len() {
                assert(tcs[j] == init[j]);
            }
        }
    }
}

/// Every fragment of a delta's `tool_calls` array is read, in order, not only the first:
/// after a choice whose delta carries the fragments, each index one of them names has a
/// call, every call held before is still held, and a call's arguments are what it held
/// followed by the arguments of each fragment for its index, in the order they came.
pub proof fn law_every_fragment_of_a_delta_is_read(
    p: Progress,
    choice: Json,
    delta: Json,
    tcs: Seq<Json>,
)
    requires
        field(choice, "delta"@) == Some(delta),
        items_field(delta, "tool_calls"@) == Some(tcs),
    ensures
        forall|j: int|
            0 <= j < tcs.len() ==> choice_step(p, choice).calls.contains_key(
                index_of(#[trigger] tcs[j]),
            ),
        forall|k: u64| p.calls.contains_key(k) ==> #[trigger] choice_step(p, choice).calls.contains_key(k),
        forall|k: u64|
            #[trigger] choice_step(p, choice).calls.contains_key(k) ==> choice_step(
                p,
                choice,
            ).calls[k].arguments == arguments_before(p.calls, k) + arguments_for(tcs, k),
{
    lemma_fold_names_every_index(p.calls, tcs);
    assert forall|k: u64| #[trigger] choice_step(p, choice).calls.contains_key(k) implies choice_step(
        p,
        choice,
    ).calls[k].arguments == arguments_before(p.calls, k) + arguments_for(tcs, k) by {
        lemma_fold_arguments(p.calls, tcs, k);
    }
}

} // verus!
