//! The command line: what each argument asks for, and which combinations are refused.
use vstd::prelude::*;

use crate::text::{ov, strip_prefix, chars_of, chars_eq, decimal, extend_chars, extend_str, join_chars, join_with, string_of, views};
use crate::patch::string_views;

verus! {

/// What the command line asked for.
#[derive(Debug, Default)]
pub struct Args {
    pub prompt: Option<String>,
    pub continue_last: bool,
    /// A specific session to resume: its list index, an id or id prefix, or a path.
    pub resume: Option<String>,
    /// A session to copy and continue instead of one to continue in place (empty: the most
    /// recent).
    pub fork: Option<String>,
    pub name: Option<String>,
    pub archive: Option<String>,
    pub delete: Option<String>,
    pub export: Option<String>,
    /// Where `export` writes the page; absent means stdout.
    pub out: Option<String>,
    pub provider: Option<String>,
    pub model: Option<String>,
    pub readonly: bool,
    pub hear_peers: bool,
    pub no_color: bool,
    pub json: bool,
    pub result_file: Option<String>,
    pub max_seconds: Option<u64>,
    pub no_session: bool,
    pub list_sessions: bool,
    pub balance: bool,
    pub who: bool,
    pub all: bool,
    pub say: Option<String>,
    pub say_to: String,
    pub exec_command: Option<String>,
    pub web: bool,
    pub port: Option<u16>,
    pub debug: Option<Vec<String>>,
    pub help: bool,
    pub cwd: Option<String>,
    pub schema: Option<String>,
    pub no_schema: bool,
    pub thinking: Option<String>,
}

pub ghost struct ArgsView {
    pub prompt: Option<Seq<char>>,
    pub continue_last: bool,
    pub resume: Option<Seq<char>>,
    pub fork: Option<Seq<char>>,
    pub name: Option<Seq<char>>,
    pub archive: Option<Seq<char>>,
    pub delete: Option<Seq<char>>,
    pub export: Option<Seq<char>>,
    pub out: Option<Seq<char>>,
    pub provider: Option<Seq<char>>,
    pub model: Option<Seq<char>>,
    pub readonly: bool,
    pub hear_peers: bool,
    pub no_color: bool,
    pub json: bool,
    pub result_file: Option<Seq<char>>,
    pub max_seconds: Option<u64>,
    pub no_session: bool,
    pub list_sessions: bool,
    pub balance: bool,
    pub who: bool,
    pub all: bool,
    pub say: Option<Seq<char>>,
    pub say_to: Seq<char>,
    pub exec_command: Option<Seq<char>>,
    pub web: bool,
    pub port: Option<u16>,
    pub debug: Option<Seq<Seq<char>>>,
    pub help: bool,
    pub cwd: Option<Seq<char>>,
    pub schema: Option<Seq<char>>,
    pub no_schema: bool,
    pub thinking: Option<Seq<char>>,
}


/// The subcommand words of `debug`, as text.
pub open spec fn debug_view(d: Option<Vec<String>>) -> Option<Seq<Seq<char>>> {
    match d {
        Some(v) => Some(string_views(v@)),
        None => None,
    }
}

impl View for Args {
    type V = ArgsView;

    open spec fn view(&self) -> ArgsView {
        ArgsView {
            prompt: ov(self.prompt),
            continue_last: self.continue_last,
            resume: ov(self.resume),
            fork: ov(self.fork),
            name: ov(self.name),
            archive: ov(self.archive),
            delete: ov(self.delete),
            export: ov(self.export),
            out: ov(self.out),
            provider: ov(self.provider),
            model: ov(self.model),
            readonly: self.readonly,
            hear_peers: self.hear_peers,
            no_color: self.no_color,
            json: self.json,
            result_file: ov(self.result_file),
            max_seconds: self.max_seconds,
            no_session: self.no_session,
            list_sessions: self.list_sessions,
            balance: self.balance,
            who: self.who,
            all: self.all,
            say: ov(self.say),
            say_to: self.say_to@,
            exec_command: ov(self.exec_command),
            web: self.web,
            port: self.port,
            debug: debug_view(self.debug),
            help: self.help,
            cwd: ov(self.cwd),
            schema: ov(self.schema),
            no_schema: self.no_schema,
            thinking: ov(self.thinking),
        }
    }
}

/// Nothing asked for.
pub open spec fn empty_args() -> ArgsView {
    ArgsView {
        prompt: None,
        continue_last: false,
        resume: None,
        fork: None,
        name: None,
        archive: None,
        delete: None,
        export: None,
        out: None,
        provider: None,
        model: None,
        readonly: false,
        hear_peers: false,
        no_color: false,
        json: false,
        result_file: None,
        max_seconds: None,
        no_session: false,
        list_sessions: false,
        balance: false,
        who: false,
        all: false,
        say: None,
        say_to: Seq::<char>::empty(),
        exec_command: None,
        web: false,
        port: None,
        debug: None,
        help: false,
        cwd: None,
        schema: None,
        no_schema: false,
        thinking: None,
    }
}

fn new_args() -> (a: Args)
    ensures
        a@ == empty_args(),
{
    let empty: Vec<char> = Vec::new();
    Args {
        prompt: None,
        continue_last: false,
        resume: None,
        fork: None,
        name: None,
        archive: None,
        delete: None,
        export: None,
        out: None,
        provider: None,
        model: None,
        readonly: false,
        hear_peers: false,
        no_color: false,
        json: false,
        result_file: None,
        max_seconds: None,
        no_session: false,
        list_sessions: false,
        balance: false,
        who: false,
        all: false,
        say: None,
        say_to: string_of(&empty),
        exec_command: None,
        web: false,
        port: None,
        debug: None,
        help: false,
        cwd: None,
        schema: None,
        no_schema: false,
        thinking: None,
    }
}

// =======================================================================================
// Numbers, as `u64::from_str` reads them
// =======================================================================================

pub open spec fn is_digit(c: char) -> bool {
    48 <= c as u32 <= 57
}

pub open spec fn digits_ok(s: Seq<char>) -> bool {
    forall|i: int| 0 <= i < s.len() ==> is_digit(#[trigger] s[i])
}

/// The number the decimal digits `s` write.
pub open spec fn digits_value(s: Seq<char>) -> nat
    decreases s.len(),
{
    if s.len() == 0 {
        0
    } else {
        10 * digits_value(s.drop_last()) + ((s.last() as u32 - 48) as nat)
    }
}

/// `u64::from_str`: an optional `+`, then at least one ASCII digit, and a value that fits.
pub open spec fn parse_u64_spec(s: Seq<char>) -> Option<u64> {
    let d = if s.len() > 0 && s[0] == '+' {
        s.drop_first()
    } else {
        s
    };
    if d.len() == 0 || !digits_ok(d) || digits_value(d) > u64::MAX {
        None
    } else {
        Some(digits_value(d) as u64)
    }
}

proof fn lemma_digits_value_grows(s: Seq<char>, i: int)
    requires
        0 <= i <= s.len(),
        digits_ok(s),
    ensures
        digits_value(s.subrange(0, i)) <= digits_value(s),
    decreases s.len() - i,
{
    if i < s.len() {
        lemma_digits_value_grows(s, i + 1);
        let t = s.subrange(0, i + 1);
        assert(t.drop_last() =~= s.subrange(0, i));
    } else {
        assert(s.subrange(0, i) =~= s);
    }
}

/// A decimal number, as `u64::from_str` reads it.
pub fn parse_u64(s: &str) -> (r: Option<u64>)
    ensures
        r == parse_u64_spec(s@),
{
    let v = chars_of(s);
    let n = v.len();
    let start: usize = if n > 0 && v[0] == '+' {
        1
    } else {
        0
    };
    let ghost d = v@.subrange(start as int, n as int);
    assert(d =~= if s@.len() > 0 && s@[0] == '+' {
        s@.drop_first()
    } else {
        s@
    });
    if start == n {
        return None;
    }
    let mut value: u64 = 0;
    let mut i = start;
    while i < n
        invariant
            start <= i <= n == v@.len(),
            v@ == s@,
            d == v@.subrange(start as int, n as int),
            d == if s@.len() > 0 && s@[0] == '+' {
                s@.drop_first()
            } else {
                s@
            },
            forall|k: int| start <= k < i ==> is_digit(#[trigger] v@[k]),
            value as nat == digits_value(v@.subrange(start as int, i as int)),
        decreases n - i,
    {
        let c = v[i];
        let u = c as u32;
        if u < 48 || u > 57 {
            assert(!is_digit(d[i - start]));
            return None;
        }
        let digit = (u - 48) as u64;
        assert(v@.subrange(start as int, i + 1).drop_last() =~= v@.subrange(
            start as int,
            i as int,
        ));
        match value.checked_mul(10) {
            None => {
                proof {
                    lemma_digits_overflow(v@, start as int, i as int, n as int);
                }
                return None;
            },
            Some(m) => match m.checked_add(digit) {
                None => {
                    proof {
                        lemma_digits_overflow(v@, start as int, i as int, n as int);
                    }
                    return None;
                },
                Some(t) => {
                    value = t;
                },
            },
        }
        i = i + 1;
    }
    assert(v@.subrange(start as int, n as int) == d);
    Some(value)
}

/// When the digits up to `i` already write a number that does not fit, the whole of them
/// does not: either some later character is not a digit, or the value only grows.
proof fn lemma_digits_overflow(v: Seq<char>, start: int, i: int, n: int)
    requires
        0 <= start <= i < n <= v.len(),
        forall|k: int| start <= k < i ==> is_digit(#[trigger] v[k]),
        is_digit(v[i]),
        digits_value(v.subrange(start, i + 1)) > u64::MAX,
    ensures
        ({
            let d = v.subrange(start, n);
            d.len() == 0 || !digits_ok(d) || digits_value(d) > u64::MAX
        }),
{
    let d = v.subrange(start, n);
    if digits_ok(d) {
        lemma_digits_value_grows(d, i + 1 - start);
        assert(d.subrange(0, i + 1 - start) =~= v.subrange(start, i + 1));
    }
}

// =======================================================================================
// `flint say`
// =======================================================================================

/// What `flint say` was given: the message, who it is for, and the two flags it shares with
/// every other command.
#[derive(Debug)]
pub struct SayWords {
    pub to: String,
    pub cwd: Option<String>,
    pub json: bool,
    pub text: Vec<String>,
}

pub ghost struct SayView {
    pub to: Seq<char>,
    pub cwd: Option<Seq<char>>,
    pub json: bool,
    pub text: Seq<Seq<char>>,
}

impl View for SayWords {
    type V = SayView;

    open spec fn view(&self) -> SayView {
        SayView { to: self.to@, cwd: ov(self.cwd), json: self.json, text: string_views(self.text@) }
    }
}

/// The words after `say` from the `i`-th on: `--to <who>` (or `-t`), `--cwd <dir>`,
/// `--json`, `--to=<who>` and `--cwd=<dir>` are taken out; every other word is the message.
pub open spec fn say_from(ws: Seq<Seq<char>>, i: int, acc: SayView) -> SayView
    decreases ws.len() - i,
{
    if i >= ws.len() || i < 0 {
        acc
    } else {
        let w = ws[i];
        if w == "--to"@ || w == "-t"@ {
            let to = if i + 1 < ws.len() {
                ws[i + 1]
            } else {
                Seq::<char>::empty()
            };
            let j = if i + 1 < ws.len() {
                i + 2
            } else {
                ws.len() as int
            };
            say_from(ws, j, SayView { to, ..acc })
        } else if w == "--cwd"@ {
            let cwd = if i + 1 < ws.len() {
                Some(ws[i + 1])
            } else {
                None
            };
            let j = if i + 1 < ws.len() {
                i + 2
            } else {
                ws.len() as int
            };
            say_from(ws, j, SayView { cwd, ..acc })
        } else if w == "--json"@ {
            say_from(ws, i + 1, SayView { json: true, ..acc })
        } else {
            match strip_prefix(w, "--to="@) {
                Some(to) => say_from(ws, i + 1, SayView { to, ..acc }),
                None => match strip_prefix(w, "--cwd="@) {
                    Some(cwd) => say_from(ws, i + 1, SayView { cwd: Some(cwd), ..acc }),
                    None => say_from(ws, i + 1, SayView { text: acc.text.push(w), ..acc }),
                },
            }
        }
    }
}

pub open spec fn split_say_spec(ws: Seq<Seq<char>>) -> SayView {
    say_from(ws, 0, SayView { to: seq![], cwd: None, json: false, text: seq![] })
}

fn is(a: &String, lit: &str) -> (b: bool)
    ensures
        b == (a@ == lit@),
{
    let x = chars_of(a.as_str());
    let y = chars_of(lit);
    chars_eq(&x, &y)
}

/// What follows `prefix` in `a`, when `a` starts with it.
fn after(a: &String, prefix: &str) -> (r: Option<String>)
    ensures
        match r {
            Some(t) => strip_prefix(a@, prefix@) == Some(t@),
            None => strip_prefix(a@, prefix@) is None,
        },
{
    let x = chars_of(a.as_str());
    let p = chars_of(prefix);
    let n = x.len();
    assert(x@.subrange(0, n as int) =~= x@);
    if crate::text::range_starts_with(&x, 0, n, &p) {
        Some(crate::text::string_of_range(&x, p.len(), n))
    } else {
        None
    }
}

/// Pull `--to <who>`, `--cwd <dir>` and `--json` out of the words after `say`; everything
/// else is the message.
pub fn split_say(words: &[String]) -> (out: SayWords)
    ensures
        out@ == split_say_spec(string_views(words@)),
{
    let ghost ws = string_views(words@);
    let empty: Vec<char> = Vec::new();
    let mut out = SayWords { to: string_of(&empty), cwd: None, json: false, text: Vec::new() };
    assert(string_views(out.text@) =~= Seq::<Seq<char>>::empty());
    assert(out@ == SayView { to: seq![], cwd: None, json: false, text: seq![] });
    let mut i: usize = 0;
    while i < words.len()
        invariant
            i <= words@.len(),
            ws == string_views(words@),
            empty@ == Seq::<char>::empty(),
            say_from(ws, i as int, out@) == split_say_spec(ws),
        decreases words@.len() - i,
    {
        let w = &words[i];
        assert(ws[i as int] == w@);
        if is(w, "--to") || is(w, "-t") {
            if i + 1 < words.len() {
                out.to = words[i + 1].clone();
                i = i + 2;
            } else {
                out.to = string_of(&empty);
                i = words.len();
            }
        } else if is(w, "--cwd") {
            if i + 1 < words.len() {
                out.cwd = Some(words[i + 1].clone());
                i = i + 2;
            } else {
                out.cwd = None;
                i = words.len();
            }
        } else if is(w, "--json") {
            out.json = true;
            i = i + 1;
        } else {
            match after(w, "--to=") {
                Some(value) => {
                    out.to = value;
                    i = i + 1;
                },
                None => match after(w, "--cwd=") {
                    Some(value) => {
                        out.cwd = Some(value);
                        i = i + 1;
                    },
                    None => {
                        let ghost t0 = out.text@;
                        let c = w.clone();
                        out.text.push(c);
                        assert(out.text@ == t0.push(c));
                        assert(string_views(out.text@) =~= string_views(t0).push(w@));
                        i = i + 1;
                    },
                },
            }
        }
    }
    out
}

// =======================================================================================
// The command line
// =======================================================================================

pub ghost enum Step {
    /// Go on at argument `j`, with what has been read so far.
    Next(int, ArgsView, bool),
    /// Stop: the command line is refused with this sentence.
    Fail(Seq<char>, bool),
}

pub open spec fn next_value(argv: Seq<Seq<char>>, i: int) -> Option<Seq<char>> {
    let n = argv.len();
    if i + 1 < n {
        Some(argv[i + 1])
    } else {
        None
    }
}

/// The value of `--resume` and `--fork`: the next argument, unless it is missing, a flag,
/// or `exec`.
pub open spec fn optional_session(argv: Seq<Seq<char>>, i: int) -> Option<Seq<char>> {
    match next_value(argv, i) {
        Some(v) => if v.len() == 0 || v[0] == '-' || v == "exec"@ {
            None
        } else {
            Some(v)
        },
        None => None,
    }
}

pub open spec fn unknown_flag(arg: Seq<char>) -> Seq<char> {
    "unknown flag '"@ + arg + "'. Try --help."@
}

pub open spec fn say_refused() -> Seq<char> {
    "say requires a message. `flint say \"I am editing src/provider.rs\"`, with `--to <pid>` to address one run"@
}

/// The meaning of one argument, before its value (if it takes one) is read.
#[derive(Debug, Clone, Copy, PartialEq, Eq, Structural)]
pub enum Flag {
    Help,
    Prompt,
    Continue,
    Resume,
    Fork,
    Provider,
    Model,
    Readonly,
    NoSession,
    HearPeers,
    Thinking,
    All,
    NoColor,
    Json,
    ResultFile,
    MaxSeconds,
    Web,
    Port,
    ListSessions,
    Name,
    Archive,
    Delete,
    Cwd,
    Schema,
    NoSchema,
    Exec,
    Balance,
    Who,
    Say,
    Export,
    Out,
    Debug,
    /// Any other word that starts with `-`.
    Unknown,
    /// A word of the prompt.
    Word,
}

/// Which flag or command word `arg` is.
pub open spec fn flag_of(arg: Seq<char>) -> Flag {
    if arg == "-h"@ || arg == "--help"@ {
        Flag::Help
    } else if arg == "-p"@ || arg == "--prompt"@ {
        Flag::Prompt
    } else if arg == "-c"@ || arg == "--continue"@ {
        Flag::Continue
    } else if arg == "--resume"@ {
        Flag::Resume
    } else if arg == "--fork"@ {
        Flag::Fork
    } else if arg == "--provider"@ {
        Flag::Provider
    } else if arg == "--model"@ {
        Flag::Model
    } else if arg == "--readonly"@ || arg == "--no-edit"@ {
        Flag::Readonly
    } else if arg == "--no-session"@ {
        Flag::NoSession
    } else if arg == "--hear-peers"@ {
        Flag::HearPeers
    } else if arg == "--thinking"@ {
        Flag::Thinking
    } else if arg == "--all"@ {
        Flag::All
    } else if arg == "--no-color"@ {
        Flag::NoColor
    } else if arg == "--json"@ {
        Flag::Json
    } else if arg == "--result-file"@ {
        Flag::ResultFile
    } else if arg == "--max-seconds"@ {
        Flag::MaxSeconds
    } else if arg == "--web"@ {
        Flag::Web
    } else if arg == "--port"@ {
        Flag::Port
    } else if arg == "--list-sessions"@ {
        Flag::ListSessions
    } else if arg == "--name"@ {
        Flag::Name
    } else if arg == "--archive"@ {
        Flag::Archive
    } else if arg == "--delete"@ {
        Flag::Delete
    } else if arg == "--cwd"@ {
        Flag::Cwd
    } else if arg == "--schema"@ {
        Flag::Schema
    } else if arg == "--no-schema"@ {
        Flag::NoSchema
    } else if arg == "exec"@ {
        Flag::Exec
    } else if arg == "balance"@ {
        Flag::Balance
    } else if arg == "who"@ {
        Flag::Who
    } else if arg == "say"@ {
        Flag::Say
    } else if arg == "export"@ {
        Flag::Export
    } else if arg == "--out"@ {
        Flag::Out
    } else if arg == "debug"@ {
        Flag::Debug
    } else if arg.len() > 0 && arg[0] == '-' {
        Flag::Unknown
    } else {
        Flag::Word
    }
}

/// What one argument, the `i`-th, asks for.
pub open spec fn step(argv: Seq<Seq<char>>, i: int, a: ArgsView, seen: bool) -> Step {
    let arg = argv[i];
    let rest = argv.subrange(i + 1, argv.len() as int);
    match flag_of(arg) {
        Flag::Help => Step::Next(i + 1, ArgsView { help: true, ..a }, seen),
        Flag::Prompt => match next_value(argv, i) {
                None => Step::Fail("--prompt requires a value"@, seen),
                Some(v) => Step::Next(i + 2, ArgsView { prompt: Some(v), ..a }, seen),
            },
        Flag::Continue => Step::Next(i + 1, ArgsView { continue_last: true, ..a }, seen),
        Flag::Resume => match optional_session(argv, i) {
                None => Step::Next(i + 1, ArgsView { continue_last: true, ..a }, seen),
                Some(v) => Step::Next(i + 2, ArgsView { resume: Some(v), ..a }, seen),
            },
        Flag::Fork => match optional_session(argv, i) {
                None => Step::Next(i + 1, ArgsView { fork: Some(Seq::<char>::empty()), ..a }, seen),
                Some(v) => Step::Next(i + 2, ArgsView { fork: Some(v), ..a }, seen),
            },
        Flag::Provider => match next_value(argv, i) {
                None => Step::Fail("--provider requires a value"@, seen),
                Some(v) => Step::Next(i + 2, ArgsView { provider: Some(v), ..a }, seen),
            },
        Flag::Model => match next_value(argv, i) {
                None => Step::Fail("--model requires a value"@, seen),
                Some(v) => Step::Next(i + 2, ArgsView { model: Some(v), ..a }, seen),
            },
        Flag::Readonly => Step::Next(i + 1, ArgsView { readonly: true, ..a }, seen),
        Flag::NoSession => Step::Next(i + 1, ArgsView { no_session: true, ..a }, seen),
        Flag::HearPeers => Step::Next(i + 1, ArgsView { hear_peers: true, ..a }, seen),
        Flag::Thinking => match next_value(argv, i) {
                None => Step::Fail("--thinking requires a level"@, seen),
                Some(v) => Step::Next(i + 2, ArgsView { thinking: Some(v), ..a }, seen),
            },
        Flag::All => Step::Next(i + 1, ArgsView { all: true, ..a }, seen),
        Flag::NoColor => Step::Next(i + 1, ArgsView { no_color: true, ..a }, seen),
        Flag::Json => Step::Next(i + 1, ArgsView { json: true, ..a }, true),
        Flag::ResultFile => match next_value(argv, i) {
                None => Step::Fail("--result-file requires a path"@, seen),
                Some(v) => Step::Next(i + 2, ArgsView { result_file: Some(v), ..a }, seen),
            },
        Flag::MaxSeconds => match next_value(argv, i) {
                None => Step::Fail("--max-seconds requires a number of seconds"@, seen),
                Some(v) => match parse_u64_spec(v) {
                    None => Step::Fail(
                        "--max-seconds takes a whole number of seconds, not '"@ + v + "'"@,
                        seen,
                    ),
                    Some(n) => if n == 0 {
                        Step::Fail(
                            "--max-seconds 0 would mean no time at all. Leave it out for no limit."@,
                            seen,
                        )
                    } else {
                        Step::Next(i + 2, ArgsView { max_seconds: Some(n), ..a }, seen)
                    },
                },
            },
        Flag::Web => Step::Next(i + 1, ArgsView { web: true, ..a }, seen),
        Flag::Port => match next_value(argv, i) {
                None => Step::Fail("--port requires a number (0 means any free port)"@, seen),
                Some(v) => match parse_u64_spec(v) {
                    Some(n) => if n <= 65535 {
                        Step::Next(i + 2, ArgsView { port: Some(n as u16), ..a }, seen)
                    } else {
                        Step::Fail("--port needs a number from 0 to 65535, not '"@ + v + "'"@, seen)
                    },
                    None => Step::Fail("--port needs a number from 0 to 65535, not '"@ + v + "'"@, seen),
                },
            },
        Flag::ListSessions => Step::Next(i + 1, ArgsView { list_sessions: true, ..a }, seen),
        Flag::Name => match next_value(argv, i) {
                None => Step::Fail("--name requires a value"@, seen),
                Some(v) => Step::Next(i + 2, ArgsView { name: Some(v), ..a }, seen),
            },
        Flag::Archive => match next_value(argv, i) {
                None => Step::Fail("--archive requires a session"@, seen),
                Some(v) => Step::Next(i + 2, ArgsView { archive: Some(v), ..a }, seen),
            },
        Flag::Delete => match next_value(argv, i) {
                None => Step::Fail("--delete requires a session"@, seen),
                Some(v) => Step::Next(i + 2, ArgsView { delete: Some(v), ..a }, seen),
            },
        Flag::Cwd => match next_value(argv, i) {
                None => Step::Fail("--cwd requires a value"@, seen),
                Some(v) => Step::Next(i + 2, ArgsView { cwd: Some(v), ..a }, seen),
            },
        Flag::Schema => match next_value(argv, i) {
                None => Step::Fail("--schema requires a value"@, seen),
                Some(v) => Step::Next(i + 2, ArgsView { schema: Some(v), ..a }, seen),
            },
        Flag::NoSchema => Step::Next(i + 1, ArgsView { no_schema: true, ..a }, seen),
        Flag::Exec => if rest.len() == 0 {
                Step::Fail("exec requires a command"@, seen)
            } else {
                Step::Next(argv.len() as int, ArgsView { exec_command: Some(join_with(rest, " "@)), ..a }, seen)
            },
        Flag::Balance => Step::Next(i + 1, ArgsView { balance: true, ..a }, seen),
        Flag::Who => Step::Next(i + 1, ArgsView { who: true, ..a }, seen),
        Flag::Say => {
                let said = split_say_spec(rest);
                if said.text.len() == 0 {
                    Step::Fail(say_refused(), seen)
                } else {
                    Step::Next(
                        argv.len() as int,
                        ArgsView {
                            cwd: if said.cwd is Some {
                                said.cwd
                            } else {
                                a.cwd
                            },
                            json: a.json || said.json,
                            say_to: said.to,
                            say: Some(join_with(said.text, " "@)),
                            ..a
                        },
                        seen,
                    )
                }
            },
        Flag::Export => match next_value(argv, i) {
                None => Step::Fail("export requires a session: `flint export <n|id|path> [--out <file>]`"@, seen),
                Some(v) => Step::Next(i + 2, ArgsView { export: Some(v), ..a }, seen),
            },
        Flag::Out => match next_value(argv, i) {
                None => Step::Fail("--out requires a path"@, seen),
                Some(v) => Step::Next(i + 2, ArgsView { out: Some(v), ..a }, seen),
            },
        Flag::Debug => if rest.len() == 0 {
                Step::Fail("debug requires a subcommand. Known: prompt-input [message]"@, seen)
            } else {
                Step::Next(argv.len() as int, ArgsView { debug: Some(rest), ..a }, seen)
            },
        Flag::Unknown => Step::Fail(unknown_flag(arg), seen),
        Flag::Word => Step::Next(
                i + 1,
                ArgsView {
                    prompt: Some(
                        match a.prompt {
                            Some(e) => e + " "@ + arg,
                            None => arg,
                        },
                    ),
                    ..a
                },
                seen,
            ),
    }
}

/// The combinations refused once every argument is read.
pub open spec fn final_checks(a: ArgsView) -> Result<ArgsView, Seq<char>> {
    if a.port is Some && !a.web {
        Err("--port needs --web: it chooses the port the browser view listens on"@)
    } else if a.out is Some && a.export is None {
        Err("--out needs export: `flint export <n|id|path> --out <file>` writes the page there"@)
    } else if a.export is Some && a.prompt is Some {
        Err(
            "export takes no prompt: it writes the conversation out and stops. Bare words after the session name would be a prompt, so they are refused rather than guessed at."@,
        )
    } else if a.json && a.web {
        Err(
            "--web and --json cannot both own the run: --json exits after one turn, taking the window with it. Use --web alone, or --json alone."@,
        )
    } else {
        Ok(a)
    }
}

/// The command line from the `i`-th argument on, and whether `--json` has been read (which
/// is reported even when the line is then refused).
pub open spec fn parse_from(argv: Seq<Seq<char>>, i: int, a: ArgsView, seen: bool) -> (
    Result<ArgsView, Seq<char>>,
    bool,
)
    decreases argv.len() - i,
{
    if i >= argv.len() || i < 0 {
        (final_checks(a), seen)
    } else {
        match step(argv, i, a, seen) {
            Step::Next(j, a2, s2) => if i < j <= argv.len() {
                parse_from(argv, j, a2, s2)
            } else {
                (Err(Seq::<char>::empty()), s2)
            },
            Step::Fail(m, s2) => (Err(m), s2),
        }
    }
}

pub open spec fn args_result_view(r: Result<Args, String>) -> Result<ArgsView, Seq<char>> {
    match r {
        Ok(a) => Ok(a@),
        Err(e) => Err(e@),
    }
}


/// The arguments from the `lo`-th on.
fn rest_of(argv: &Vec<String>, lo: usize) -> (out: Vec<String>)
    requires
        lo <= argv@.len(),
    ensures
        string_views(out@) == string_views(argv@).subrange(lo as int, argv@.len() as int),
{
    let mut out: Vec<String> = Vec::new();
    let mut k = lo;
    while k < argv.len()
        invariant
            lo <= k <= argv@.len(),
            out@ == argv@.subrange(lo as int, k as int),
        decreases argv@.len() - k,
    {
        out.push(argv[k].clone());
        k = k + 1;
        assert(out@ =~= argv@.subrange(lo as int, k as int));
    }
    assert(string_views(out@) =~= string_views(argv@).subrange(lo as int, argv@.len() as int));
    out
}

/// The strings joined with `sep` between them (`[String]::join`).
fn join_strings(v: &Vec<String>, sep: &str) -> (s: String)
    ensures
        s@ == join_with(string_views(v@), sep@),
{
    let parts = crate::patch::chars_of_all(v);
    let sep_chars = chars_of(sep);
    let joined = join_chars(&parts, &sep_chars);
    string_of(&joined)
}

/// The argument after the `i`-th, or the sentence that says it is missing.
pub(crate) fn value_after(argv: &Vec<String>, i: usize, missing: &str) -> (r: Result<String, String>)
    requires
        i < argv@.len(),
    ensures
        match r {
            Ok(v) => i + 1 < argv@.len() && next_value(string_views(argv@), i as int) == Some(v@),
            Err(e) => next_value(string_views(argv@), i as int) is None && e@ == missing@,
        },
{
    let n = argv.len();
    if i + 1 < n {
        Ok(argv[i + 1].clone())
    } else {
        Err(missing.to_owned())
    }
}

/// `head`, the value, then `tail`.
fn quoted(head: &str, value: &String, tail: &str) -> (s: String)
    ensures
        s@ == head@ + value@ + tail@,
{
    let mut out: Vec<char> = Vec::new();
    extend_str(&mut out, head);
    extend_str(&mut out, value.as_str());
    extend_str(&mut out, tail);
    string_of(&out)
}

/// Whether an argument looks like a flag: it starts with `-`.
fn dashed(arg: &String) -> (b: bool)
    ensures
        b == (arg@.len() > 0 && arg@[0] == '-'),
{
    let c = chars_of(arg.as_str());
    c.len() > 0 && c[0] == '-'
}

/// The value of `--resume` and `--fork`, when the next argument is one.
pub(crate) fn session_after(argv: &Vec<String>, i: usize) -> (r: Option<String>)
    requires
        i < argv@.len(),
    ensures
        match r {
            Some(v) => i + 1 < argv@.len() && optional_session(string_views(argv@), i as int) == Some(v@),
            None => optional_session(string_views(argv@), i as int) is None,
        },
{
    let n = argv.len();
    if i + 1 < n {
        let v = &argv[i + 1];
        let c = chars_of(v.as_str());
        if c.len() == 0 || c[0] == '-' || is(v, "exec") {
            None
        } else {
            Some(v.clone())
        }
    } else {
        None
    }
}

/// The ways the value of `--max-seconds` and `--port` is read.
fn number_after(argv: &Vec<String>, i: usize) -> (r: Option<(String, Option<u64>)>)
    requires
        i < argv@.len(),
    ensures
        match r {
            Some((v, n)) => i + 1 < argv@.len() && next_value(string_views(argv@), i as int) == Some(v@)
                && n == parse_u64_spec(v@),
            None => next_value(string_views(argv@), i as int) is None,
        },
{
    let n = argv.len();
    if i + 1 < n {
        let v = argv[i + 1].clone();
        let n = parse_u64(v.as_str());
        Some((v, n))
    } else {
        None
    }
}

/// Which flag or command word an argument is.
fn flag(arg: &String) -> (f: Flag)
    ensures
        f == flag_of(arg@),
{
    if is(arg, "-h") || is(arg, "--help") {
        Flag::Help
    } else if is(arg, "-p") || is(arg, "--prompt") {
        Flag::Prompt
    } else if is(arg, "-c") || is(arg, "--continue") {
        Flag::Continue
    } else if is(arg, "--resume") {
        Flag::Resume
    } else if is(arg, "--fork") {
        Flag::Fork
    } else if is(arg, "--provider") {
        Flag::Provider
    } else if is(arg, "--model") {
        Flag::Model
    } else if is(arg, "--readonly") || is(arg, "--no-edit") {
        Flag::Readonly
    } else if is(arg, "--no-session") {
        Flag::NoSession
    } else if is(arg, "--hear-peers") {
        Flag::HearPeers
    } else if is(arg, "--thinking") {
        Flag::Thinking
    } else if is(arg, "--all") {
        Flag::All
    } else if is(arg, "--no-color") {
        Flag::NoColor
    } else if is(arg, "--json") {
        Flag::Json
    } else if is(arg, "--result-file") {
        Flag::ResultFile
    } else if is(arg, "--max-seconds") {
        Flag::MaxSeconds
    } else if is(arg, "--web") {
        Flag::Web
    } else if is(arg, "--port") {
        Flag::Port
    } else if is(arg, "--list-sessions") {
        Flag::ListSessions
    } else if is(arg, "--name") {
        Flag::Name
    } else if is(arg, "--archive") {
        Flag::Archive
    } else if is(arg, "--delete") {
        Flag::Delete
    } else if is(arg, "--cwd") {
        Flag::Cwd
    } else if is(arg, "--schema") {
        Flag::Schema
    } else if is(arg, "--no-schema") {
        Flag::NoSchema
    } else if is(arg, "exec") {
        Flag::Exec
    } else if is(arg, "balance") {
        Flag::Balance
    } else if is(arg, "who") {
        Flag::Who
    } else if is(arg, "say") {
        Flag::Say
    } else if is(arg, "export") {
        Flag::Export
    } else if is(arg, "--out") {
        Flag::Out
    } else if is(arg, "debug") {
        Flag::Debug
    } else if dashed(arg) {
        Flag::Unknown
    } else {
        Flag::Word
    }
}

/// One thing the command line sets.
pub enum Setting {
    Help,
    Prompt(String),
    Continue,
    Resume(String),
    Fork(String),
    Provider(String),
    Model(String),
    Readonly,
    NoSession,
    HearPeers,
    Thinking(String),
    All,
    NoColor,
    Json,
    ResultFile(String),
    MaxSeconds(u64),
    Web,
    Port(u16),
    ListSessions,
    Name(String),
    Archive(String),
    Delete(String),
    Cwd(String),
    Schema(String),
    NoSchema,
    Exec(String),
    Balance,
    Who,
    /// From `say`: the directory (if it named one), `--json`, who it is for, and the message.
    Say(Option<String>, bool, String, String),
    Export(String),
    Out(String),
    Debug(Vec<String>),
}

/// What the command line holds once `s` is set.
pub open spec fn settled(a: ArgsView, s: Setting) -> ArgsView {
    match s {
        Setting::Help => ArgsView { help: true, ..a },
        Setting::Prompt(v) => ArgsView { prompt: Some(v@), ..a },
        Setting::Continue => ArgsView { continue_last: true, ..a },
        Setting::Resume(v) => ArgsView { resume: Some(v@), ..a },
        Setting::Fork(v) => ArgsView { fork: Some(v@), ..a },
        Setting::Provider(v) => ArgsView { provider: Some(v@), ..a },
        Setting::Model(v) => ArgsView { model: Some(v@), ..a },
        Setting::Readonly => ArgsView { readonly: true, ..a },
        Setting::NoSession => ArgsView { no_session: true, ..a },
        Setting::HearPeers => ArgsView { hear_peers: true, ..a },
        Setting::Thinking(v) => ArgsView { thinking: Some(v@), ..a },
        Setting::All => ArgsView { all: true, ..a },
        Setting::NoColor => ArgsView { no_color: true, ..a },
        Setting::Json => ArgsView { json: true, ..a },
        Setting::ResultFile(v) => ArgsView { result_file: Some(v@), ..a },
        Setting::MaxSeconds(n) => ArgsView { max_seconds: Some(n), ..a },
        Setting::Web => ArgsView { web: true, ..a },
        Setting::Port(n) => ArgsView { port: Some(n), ..a },
        Setting::ListSessions => ArgsView { list_sessions: true, ..a },
        Setting::Name(v) => ArgsView { name: Some(v@), ..a },
        Setting::Archive(v) => ArgsView { archive: Some(v@), ..a },
        Setting::Delete(v) => ArgsView { delete: Some(v@), ..a },
        Setting::Cwd(v) => ArgsView { cwd: Some(v@), ..a },
        Setting::Schema(v) => ArgsView { schema: Some(v@), ..a },
        Setting::NoSchema => ArgsView { no_schema: true, ..a },
        Setting::Exec(v) => ArgsView { exec_command: Some(v@), ..a },
        Setting::Balance => ArgsView { balance: true, ..a },
        Setting::Who => ArgsView { who: true, ..a },
        Setting::Say(cwd, json, to, text) => ArgsView {
            cwd: if cwd is Some {
                ov(cwd)
            } else {
                a.cwd
            },
            json: a.json || json,
            say_to: to@,
            say: Some(text@),
            ..a
        },
        Setting::Export(v) => ArgsView { export: Some(v@), ..a },
        Setting::Out(v) => ArgsView { out: Some(v@), ..a },
        Setting::Debug(v) => ArgsView { debug: Some(string_views(v@)), ..a },
    }
}

impl Args {
    /// Set one thing.
    fn set(&mut self, s: Setting)
        ensures
            final(self)@ == settled(old(self)@, s),
    {
        match s {
            Setting::Help => {
                self.help = true;
                return;
            },
            Setting::Prompt(v) => {
                self.prompt = Some(v);
                return;
            },
            Setting::Continue => {
                self.continue_last = true;
                return;
            },
            Setting::Resume(v) => {
                self.resume = Some(v);
                return;
            },
            Setting::Fork(v) => {
                self.fork = Some(v);
                return;
            },
            Setting::Provider(v) => {
                self.provider = Some(v);
                return;
            },
            Setting::Model(v) => {
                self.model = Some(v);
                return;
            },
            Setting::Readonly => {
                self.readonly = true;
                return;
            },
            _ => {
                self.set_b(s);
                return;
            },
        }
    }

    fn set_b(&mut self, s: Setting)
        requires
            !(s is Help) && !(s is Prompt) && !(s is Continue) && !(s is Resume) && !(s is Fork) && !(s is Provider) && !(s is Model) && !(s is Readonly),
        ensures
            final(self)@ == settled(old(self)@, s),
    {
        match s {
            Setting::NoSession => {
                self.no_session = true;
                return;
            },
            Setting::HearPeers => {
                self.hear_peers = true;
                return;
            },
            Setting::Thinking(v) => {
                self.thinking = Some(v);
                return;
            },
            Setting::All => {
                self.all = true;
                return;
            },
            Setting::NoColor => {
                self.no_color = true;
                return;
            },
            Setting::Json => {
                self.json = true;
                return;
            },
            Setting::ResultFile(v) => {
                self.result_file = Some(v);
                return;
            },
            Setting::MaxSeconds(n) => {
                self.max_seconds = Some(n);
                return;
            },
            _ => {
                self.set_c(s);
                return;
            },
        }
    }

    fn set_c(&mut self, s: Setting)
        requires
            !(s is Help) && !(s is Prompt) && !(s is Continue) && !(s is Resume) && !(s is Fork) && !(s is Provider) && !(s is Model) && !(s is Readonly) && !(s is NoSession) && !(s is HearPeers) && !(s is Thinking) && !(s is All) && !(s is NoColor) && !(s is Json) && !(s is ResultFile) && !(s is MaxSeconds),
        ensures
            final(self)@ == settled(old(self)@, s),
    {
        match s {
            Setting::Web => {
                self.web = true;
                return;
            },
            Setting::Port(n) => {
                self.port = Some(n);
                return;
            },
            Setting::ListSessions => {
                self.list_sessions = true;
                return;
            },
            Setting::Name(v) => {
                self.name = Some(v);
                return;
            },
            Setting::Archive(v) => {
                self.archive = Some(v);
                return;
            },
            Setting::Delete(v) => {
                self.delete = Some(v);
                return;
            },
            Setting::Cwd(v) => {
                self.cwd = Some(v);
                return;
            },
            Setting::Schema(v) => {
                self.schema = Some(v);
                return;
            },
            _ => {
                self.set_d(s);
                return;
            },
        }
    }

    /// What `say` sets: the directory only when it named one, and `--json` only to switch it
    /// on.
    fn set_say(&mut self, cwd: Option<String>, json: bool, to: String, text: String)
        ensures
            final(self)@ == (ArgsView {
                cwd: if cwd is Some {
                    ov(cwd)
                } else {
                    old(self)@.cwd
                },
                json: old(self)@.json || json,
                say_to: to@,
                say: Some(text@),
                ..old(self)@
            }),
    {
        let kept = if cwd.is_some() {
            cwd
        } else {
            self.cwd.take()
        };
        let asked = self.json || json;
        self.cwd = kept;
        self.json = asked;
        self.say_to = to;
        self.say = Some(text);
    }

    fn set_d(&mut self, s: Setting)
        requires
            !(s is Help) && !(s is Prompt) && !(s is Continue) && !(s is Resume) && !(s is Fork) && !(s is Provider) && !(s is Model) && !(s is Readonly) && !(s is NoSession) && !(s is HearPeers) && !(s is Thinking) && !(s is All) && !(s is NoColor) && !(s is Json) && !(s is ResultFile) && !(s is MaxSeconds) && !(s is Web) && !(s is Port) && !(s is ListSessions) && !(s is Name) && !(s is Archive) && !(s is Delete) && !(s is Cwd) && !(s is Schema),
        ensures
            final(self)@ == settled(old(self)@, s),
    {
        match s {
            Setting::NoSchema => {
                self.no_schema = true;
                return;
            },
            Setting::Exec(v) => {
                self.exec_command = Some(v);
                return;
            },
            Setting::Balance => {
                self.balance = true;
                return;
            },
            Setting::Who => {
                self.who = true;
                return;
            },
            Setting::Say(cwd, json, to, text) => {
                self.set_say(cwd, json, to, text);
                return;
            },
            Setting::Export(v) => {
                self.export = Some(v);
                return;
            },
            Setting::Out(v) => {
                self.out = Some(v);
                return;
            },
            Setting::Debug(v) => {
                self.debug = Some(v);
                return;
            },
            _ => {},
        }
    }
}

/// Read the `i`-th argument into `a`: the index of the next argument to read, or the sentence
/// that refuses the command line. `seen` records that `--json` was asked for.
fn step_exec(argv: &Vec<String>, i: usize, a: &mut Args, seen: &mut bool) -> (r: Result<usize, String>)
    requires
        i < argv@.len(),
    ensures
        match step(string_views(argv@), i as int, old(a)@, *old(seen)) {
            Step::Next(j, a2, s2) => r == Ok::<usize, String>(j as usize) && i < j <= argv@.len()
                && final(a)@ == a2 && *final(seen) == s2,
            Step::Fail(m, s2) => r is Err && r->Err_0@ == m && *final(seen) == s2,
        },
{
    let ghost ws = string_views(argv@);
    let n = argv.len();
    let arg = &argv[i];
    assert(ws[i as int] == arg@);
    match flag(arg) {
        Flag::Help => {
            a.set(Setting::Help);
            Ok(i + 1)
        },
        Flag::Prompt => match value_after(argv, i, "--prompt requires a value") {
            Ok(v) => {
                a.set(Setting::Prompt(v));
                Ok(i + 2)
            },
            Err(e) => Err(e),
        },
        Flag::Continue => {
            a.set(Setting::Continue);
            Ok(i + 1)
        },
        Flag::Resume => match session_after(argv, i) {
            None => {
                a.set(Setting::Continue);
                Ok(i + 1)
            },
            Some(v) => {
                a.set(Setting::Resume(v));
                Ok(i + 2)
            },
        },
        Flag::Fork => match session_after(argv, i) {
            None => {
                a.set(Setting::Fork(String::new()));
                Ok(i + 1)
            },
            Some(v) => {
                a.set(Setting::Fork(v));
                Ok(i + 2)
            },
        },
        Flag::Provider => match value_after(argv, i, "--provider requires a value") {
            Ok(v) => {
                a.set(Setting::Provider(v));
                Ok(i + 2)
            },
            Err(e) => Err(e),
        },
        Flag::Model => match value_after(argv, i, "--model requires a value") {
            Ok(v) => {
                a.set(Setting::Model(v));
                Ok(i + 2)
            },
            Err(e) => Err(e),
        },
        Flag::Readonly => {
            a.set(Setting::Readonly);
            Ok(i + 1)
        },
        Flag::NoSession => {
            a.set(Setting::NoSession);
            Ok(i + 1)
        },
        Flag::HearPeers => {
            a.set(Setting::HearPeers);
            Ok(i + 1)
        },
        Flag::Thinking => match value_after(argv, i, "--thinking requires a level") {
            Ok(v) => {
                a.set(Setting::Thinking(v));
                Ok(i + 2)
            },
            Err(e) => Err(e),
        },
        Flag::All => {
            a.set(Setting::All);
            Ok(i + 1)
        },
        Flag::NoColor => {
            a.set(Setting::NoColor);
            Ok(i + 1)
        },
        Flag::Json => {
            a.set(Setting::Json);
            *seen = true;
            Ok(i + 1)
        },
        Flag::ResultFile => match value_after(argv, i, "--result-file requires a path") {
            Ok(v) => {
                a.set(Setting::ResultFile(v));
                Ok(i + 2)
            },
            Err(e) => Err(e),
        },
        Flag::MaxSeconds => match number_after(argv, i) {
            None => Err("--max-seconds requires a number of seconds".to_owned()),
            Some((v, k)) => match k {
                None => Err(quoted("--max-seconds takes a whole number of seconds, not '", &v, "'")),
                Some(k) => if k == 0 {
                    Err(
                        "--max-seconds 0 would mean no time at all. Leave it out for no limit.".to_owned(),
                    )
                } else {
                    a.set(Setting::MaxSeconds(k));
                    Ok(i + 2)
                },
            },
        },
        Flag::Web => {
            a.set(Setting::Web);
            Ok(i + 1)
        },
        Flag::Port => match number_after(argv, i) {
            None => Err("--port requires a number (0 means any free port)".to_owned()),
            Some((v, k)) => match k {
                Some(k) => if k <= 65535 {
                    a.set(Setting::Port(k as u16));
                    Ok(i + 2)
                } else {
                    Err(quoted("--port needs a number from 0 to 65535, not '", &v, "'"))
                },
                None => Err(quoted("--port needs a number from 0 to 65535, not '", &v, "'")),
            },
        },
        Flag::ListSessions => {
            a.set(Setting::ListSessions);
            Ok(i + 1)
        },
        Flag::Name => match value_after(argv, i, "--name requires a value") {
            Ok(v) => {
                a.set(Setting::Name(v));
                Ok(i + 2)
            },
            Err(e) => Err(e),
        },
        Flag::Archive => match value_after(argv, i, "--archive requires a session") {
            Ok(v) => {
                a.set(Setting::Archive(v));
                Ok(i + 2)
            },
            Err(e) => Err(e),
        },
        Flag::Delete => match value_after(argv, i, "--delete requires a session") {
            Ok(v) => {
                a.set(Setting::Delete(v));
                Ok(i + 2)
            },
            Err(e) => Err(e),
        },
        Flag::Cwd => match value_after(argv, i, "--cwd requires a value") {
            Ok(v) => {
                a.set(Setting::Cwd(v));
                Ok(i + 2)
            },
            Err(e) => Err(e),
        },
        Flag::Schema => match value_after(argv, i, "--schema requires a value") {
            Ok(v) => {
                a.set(Setting::Schema(v));
                Ok(i + 2)
            },
            Err(e) => Err(e),
        },
        Flag::NoSchema => {
            a.set(Setting::NoSchema);
            Ok(i + 1)
        },
        Flag::Exec => {
            let rest = rest_of(argv, i + 1);
            if rest.len() == 0 {
                Err("exec requires a command".to_owned())
            } else {
                a.set(Setting::Exec(join_strings(&rest, " ")));
                Ok(n)
            }
        },
        Flag::Balance => {
            a.set(Setting::Balance);
            Ok(i + 1)
        },
        Flag::Who => {
            a.set(Setting::Who);
            Ok(i + 1)
        },
        Flag::Say => {
            let rest = rest_of(argv, i + 1);
            let said = split_say(rest.as_slice());
            if said.text.len() == 0 {
                Err(
                    "say requires a message. `flint say \"I am editing src/provider.rs\"`, with `--to <pid>` to address one run".to_owned(),
                )
            } else {
                let text = join_strings(&said.text, " ");
                a.set(Setting::Say(said.cwd, said.json, said.to, text));
                Ok(n)
            }
        },
        Flag::Export => match value_after(argv, i, "export requires a session: `flint export <n|id|path> [--out <file>]`") {
            Ok(v) => {
                a.set(Setting::Export(v));
                Ok(i + 2)
            },
            Err(e) => Err(e),
        },
        Flag::Out => match value_after(argv, i, "--out requires a path") {
            Ok(v) => {
                a.set(Setting::Out(v));
                Ok(i + 2)
            },
            Err(e) => Err(e),
        },
        Flag::Debug => {
            let rest = rest_of(argv, i + 1);
            if rest.len() == 0 {
                Err("debug requires a subcommand. Known: prompt-input [message]".to_owned())
            } else {
                a.set(Setting::Debug(rest));
                Ok(n)
            }
        },
        Flag::Unknown => Err(quoted("unknown flag '", arg, "'. Try --help.")),
        Flag::Word => {
            let joined = match &a.prompt {
                Some(e) => quoted(e.as_str(), &" ".to_owned(), arg.as_str()),
                None => arg.clone(),
            };
            a.set(Setting::Prompt(joined));
            Ok(i + 1)
        },
    }
}

/// The combinations of flags refused once every argument is read.
fn final_checks_exec(a: Args) -> (r: Result<Args, String>)
    ensures
        args_result_view(r) == final_checks(a@),
{
    if a.port.is_some() && !a.web {
        Err("--port needs --web: it chooses the port the browser view listens on".to_owned())
    } else if a.out.is_some() && a.export.is_none() {
        Err(
            "--out needs export: `flint export <n|id|path> --out <file>` writes the page there".to_owned(),
        )
    } else if a.export.is_some() && a.prompt.is_some() {
        Err(
            "export takes no prompt: it writes the conversation out and stops. Bare words after the session name would be a prompt, so they are refused rather than guessed at.".to_owned(),
        )
    } else if a.json && a.web {
        Err(
            "--web and --json cannot both own the run: --json exits after one turn, taking the window with it. Use --web alone, or --json alone.".to_owned(),
        )
    } else {
        Ok(a)
    }
}

/// Read the command line (without the program's own name). `stream_seen` is set when
/// `--json` was read, also when the line is then refused, so that the refusal can be
/// written in the form the caller asked for.
pub fn parse_args(argv: Vec<String>, stream_seen: &mut bool) -> (r: Result<Args, String>)
    ensures
        (args_result_view(r), *final(stream_seen)) == parse_from(
            string_views(argv@),
            0,
            empty_args(),
            *old(stream_seen),
        ),
{
    let ghost ws = string_views(argv@);
    let mut a = new_args();
    let mut i: usize = 0;
    while i < argv.len()
        invariant
            i <= argv@.len(),
            ws == string_views(argv@),
            parse_from(ws, i as int, a@, *stream_seen) == parse_from(
                ws,
                0,
                empty_args(),
                *old(stream_seen),
            ),
        decreases argv@.len() - i,
    {
        match step_exec(&argv, i, &mut a, stream_seen) {
            Ok(j) => {
                i = j;
            },
            Err(e) => {
                return Err(e);
            },
        }
    }
    final_checks_exec(a)
}

/// The command line is consistent: `--port` only with `--web`, `--out` only with `export`,
/// `export` never beside a prompt, and `--web` never beside `--json`.
pub open spec fn consistent(a: ArgsView) -> bool {
    &&& a.port is Some ==> a.web
    &&& a.out is Some ==> a.export is Some
    &&& !(a.export is Some && a.prompt is Some)
    &&& !(a.json && a.web)
}

proof fn lemma_accepted_is_consistent(argv: Seq<Seq<char>>, i: int, a: ArgsView, seen: bool)
    ensures
        parse_from(argv, i, a, seen).0 is Ok ==> consistent(parse_from(argv, i, a, seen).0->Ok_0),
    decreases argv.len() - i,
{
    if !(i >= argv.len() || i < 0) {
        match step(argv, i, a, seen) {
            Step::Next(j, a2, s2) => if i < j <= argv.len() {
                lemma_accepted_is_consistent(argv, j, a2, s2);
            },
            Step::Fail(_, _) => {},
        }
    }
}

/// Every command line that is accepted is consistent: a `--port` the browser view would not
/// use, an `--out` with nothing to write, a prompt beside `export`, and `--web` beside
/// `--json` are all refused rather than half-obeyed.
pub proof fn law_accepted_command_lines_are_consistent(argv: Seq<Seq<char>>, seen: bool)
    ensures
        parse_from(argv, 0, empty_args(), seen).0 is Ok ==> consistent(
            parse_from(argv, 0, empty_args(), seen).0->Ok_0,
        ),
{
    lemma_accepted_is_consistent(argv, 0, empty_args(), seen);
}

proof fn lemma_guard_flags()
    ensures
        flag_of("--readonly"@) == Flag::Readonly,
        flag_of("--no-edit"@) == Flag::Readonly,
{
    reveal_strlit("--readonly");
    reveal_strlit("--no-edit");
    reveal_strlit("-h");
    reveal_strlit("--help");
    reveal_strlit("-p");
    reveal_strlit("--prompt");
    reveal_strlit("-c");
    reveal_strlit("--continue");
    reveal_strlit("--resume");
    reveal_strlit("--fork");
    reveal_strlit("--provider");
    reveal_strlit("--model");
    assert("--readonly"@.len() == 10 && "--readonly"@[2] == 'r');
    assert("--no-edit"@.len() == 9);
    assert("-h"@.len() == 2 && "--help"@.len() == 6 && "-p"@.len() == 2);
    assert("--prompt"@.len() == 8 && "-c"@.len() == 2 && "--resume"@.len() == 8);
    assert("--fork"@.len() == 6 && "--model"@.len() == 7);
    assert("--continue"@.len() == 10 && "--continue"@[2] == 'c');
    assert("--provider"@.len() == 10 && "--provider"@[2] == 'p');
}

/// The arguments read from the write guard followed by the prompt words `ws`.
pub open spec fn guarded_prompt(ws: Seq<Seq<char>>) -> ArgsView {
    ArgsView {
        readonly: true,
        prompt: if ws.len() == 0 {
            None
        } else {
            Some(join_with(ws, " "@))
        },
        ..empty_args()
    }
}

proof fn lemma_guarded_words(argv: Seq<Seq<char>>, i: int, seen: bool)
    requires
        1 <= i <= argv.len(),
        forall|k: int| 1 <= k < argv.len() ==> flag_of(#[trigger] argv[k]) == Flag::Word,
    ensures
        parse_from(argv, i, guarded_prompt(argv.subrange(1, i)), seen) == (
            Ok::<ArgsView, Seq<char>>(guarded_prompt(argv.subrange(1, argv.len() as int))),
            seen,
        ),
    decreases argv.len() - i,
{
    if i < argv.len() {
        let before = argv.subrange(1, i);
        let after = argv.subrange(1, i + 1);
        assert(after =~= before.push(argv[i]));
        assert(after.drop_last() =~= before);
        assert(flag_of(argv[i]) == Flag::Word);
        assert(step(argv, i, guarded_prompt(before), seen) == Step::Next(
            i + 1,
            guarded_prompt(after),
            seen,
        ));
        lemma_guarded_words(argv, i + 1, seen);
    } else {
        assert(argv.subrange(1, i) =~= argv.subrange(1, argv.len() as int));
    }
}

/// The write guard can be asked for by either of its spellings: a command line of
/// `--readonly` (or `--no-edit`) followed by prompt words is accepted, with the guard on and
/// the words as the prompt; and the two spellings read every command line alike.
pub proof fn law_the_write_guard_has_two_spellings(rest: Seq<Seq<char>>, seen: bool)
    requires
        forall|k: int| 0 <= k < rest.len() ==> flag_of(#[trigger] rest[k]) == Flag::Word,
    ensures
        parse_from(seq!["--readonly"@] + rest, 0, empty_args(), seen) == (
            Ok::<ArgsView, Seq<char>>(guarded_prompt(rest)),
            seen,
        ),
        parse_from(seq!["--no-edit"@] + rest, 0, empty_args(), seen) == (
            Ok::<ArgsView, Seq<char>>(guarded_prompt(rest)),
            seen,
        ),
{
    lemma_guard_flags();
    let a1 = seq!["--readonly"@] + rest;
    let a2 = seq!["--no-edit"@] + rest;
    assert forall|k: int| 1 <= k < a1.len() implies flag_of(#[trigger] a1[k]) == Flag::Word by {
        assert(a1[k] == rest[k - 1]);
    }
    assert forall|k: int| 1 <= k < a2.len() implies flag_of(#[trigger] a2[k]) == Flag::Word by {
        assert(a2[k] == rest[k - 1]);
    }
    assert(a1[0] == "--readonly"@);
    assert(a2[0] == "--no-edit"@);
    assert(a1.subrange(1, 1) =~= Seq::<Seq<char>>::empty());
    assert(a2.subrange(1, 1) =~= Seq::<Seq<char>>::empty());
    assert(guarded_prompt(Seq::<Seq<char>>::empty()) == ArgsView { readonly: true, ..empty_args() });
    lemma_guarded_words(a1, 1, seen);
    lemma_guarded_words(a2, 1, seen);
    assert(a1.subrange(1, a1.len() as int) =~= rest);
    assert(a2.subrange(1, a2.len() as int) =~= rest);
}

} // verus!
