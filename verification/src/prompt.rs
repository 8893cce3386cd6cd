//! The lines a person types at the prompt, and the small sentences said about them.
//!
//! What is a command and what is a message is decided here, by exact words: `/queue` is the
//! follow-up command and `/queuex` is not; `--web` alone is a command-line flag typed at the
//! prompt and is translated, while a sentence that mentions `--web` reaches the model.
use vstd::prelude::*;
use vstd::string::StrSliceExecFns;

use crate::text::{
    chars_of, copy_range, ov, decimal, decimal_chars, eq_str, extend_chars, extend_str, find_ws,
    first_ws, is_whitespace, is_ws, join_chars, join_with, lines, lines_of, range_starts_with,
    split_chars, split_on, starts_with, string_of, strip_prefix, trim, trim_end_at, trim_start,
    trim_start_at, views, words, words_of,
};

verus! {

// =======================================================================================
// `/queue`
// =======================================================================================

/// The follow-up text of a `/queue` line; `None` when the line is not that command.
pub open spec fn follow_up_spec(line: Seq<char>) -> Option<Seq<char>> {
    match strip_prefix(trim_start(line), "/queue"@) {
        None => None,
        Some(rest) => if rest.len() > 0 && !is_ws(rest[0]) {
            None
        } else {
            Some(trim(rest))
        },
    }
}

/// The line that is a follow-up rather than a message or an interruption: `/queue <text>`.
///
/// Returns the text, which may be empty; `None` means this is not the command at all, so
/// `/queuex` is not a queue with the argument `x`.
pub fn follow_up(line: &str) -> (r: Option<&str>)
    ensures
        match r {
            Some(t) => follow_up_spec(line@) == Some(t@),
            None => follow_up_spec(line@) is None,
        },
{
    let v = chars_of(line);
    let n = v.len();
    let s = trim_start_at(&v, 0, n);
    assert(v@.subrange(0, n as int) =~= v@);
    let q = chars_of("/queue");
    if !range_starts_with(&v, s, n, &q) {
        return None;
    }
    let a = s + q.len();
    assert(v@.subrange(s as int, n as int).subrange(q@.len() as int, n - s) =~= v@.subrange(
        a as int,
        n as int,
    ));
    if a < n && !is_whitespace(v[a]) {
        return None;
    }
    let e = trim_end_at(&v, a, n);
    let b = trim_start_at(&v, a, e);
    Some(line.substring_char(b, e))
}

// =======================================================================================
// Splitting an argument
// =======================================================================================

/// The first word of a text and the rest of it, both without leading whitespace.
pub open spec fn first_word_and_rest(a: Seq<char>) -> (Seq<char>, Seq<char>) {
    match first_ws(a) {
        Some(e) => (a.subrange(0, e), trim_start(a.subrange(e, a.len() as int))),
        None => (a, Seq::<char>::empty()),
    }
}

/// A command's argument split into its first word and the rest of the line.
pub open spec fn split_first_spec(arg: Seq<char>) -> (Seq<char>, Seq<char>) {
    first_word_and_rest(trim_start(arg))
}

/// `/say`'s argument split into an addressee and the words: only a leading `--to ` counts.
pub open spec fn split_to_spec(arg: Seq<char>) -> (Seq<char>, Seq<char>) {
    let rest = trim_start(arg);
    match strip_prefix(rest, "--to "@) {
        None => (Seq::<char>::empty(), rest),
        Some(r) => first_word_and_rest(trim_start(r)),
    }
}

/// The first word of `v[lo..]` (already without leading whitespace), and where the rest
/// of the text starts once its own leading whitespace is dropped.
fn word_bounds(v: &Vec<char>, lo: usize) -> (r: (usize, usize))
    requires
        lo <= v@.len(),
    ensures
        lo <= r.0 <= r.1 <= v@.len(),
        first_word_and_rest(v@.subrange(lo as int, v@.len() as int)) == (
            v@.subrange(lo as int, r.0 as int),
            v@.subrange(r.1 as int, v@.len() as int),
        ),
{
    let n = v.len();
    let ghost a = v@.subrange(lo as int, n as int);
    match find_ws(v, lo, n) {
        Some(e) => {
            let r = trim_start_at(v, e, n);
            assert(a.subrange(0, e - lo) =~= v@.subrange(lo as int, e as int));
            assert(a.subrange(e - lo, a.len() as int) =~= v@.subrange(e as int, n as int));
            (e, r)
        },
        None => {
            assert(a =~= v@.subrange(lo as int, n as int));
            assert(v@.subrange(n as int, n as int) =~= Seq::<char>::empty());
            (n, n)
        },
    }
}

/// A command's argument split into its first word and the rest of the line.
pub fn split_first(arg: &str) -> (r: (&str, &str))
    ensures
        (r.0@, r.1@) == split_first_spec(arg@),
{
    let v = chars_of(arg);
    let n = v.len();
    let s = trim_start_at(&v, 0, n);
    assert(v@.subrange(0, n as int) =~= v@);
    let (e, r) = word_bounds(&v, s);
    (arg.substring_char(s, e), arg.substring_char(r, n))
}

/// `/say`'s arguments split into an addressee and the words.
pub fn split_to(arg: &str) -> (r: (String, &str))
    ensures
        (r.0@, r.1@) == split_to_spec(arg@),
{
    let v = chars_of(arg);
    let n = v.len();
    let s = trim_start_at(&v, 0, n);
    assert(v@.subrange(0, n as int) =~= v@);
    let to = chars_of("--to ");
    if !range_starts_with(&v, s, n, &to) {
        let empty: Vec<char> = Vec::new();
        return (string_of(&empty), arg.substring_char(s, n));
    }
    let a = s + to.len();
    assert(v@.subrange(s as int, n as int).subrange(to@.len() as int, n - s) =~= v@.subrange(
        a as int,
        n as int,
    ));
    let b = trim_start_at(&v, a, n);
    let (e, r) = word_bounds(&v, b);
    (string_of(&copy_range(&v, b, e)), arg.substring_char(r, n))
}

/// Whether `line` is the command `send` with an argument after it, rather than a longer
/// word that merely begins with the same letters.
pub open spec fn takes_argument_spec(send: Seq<char>, line: Seq<char>) -> bool {
    match strip_prefix(line, send) {
        Some(rest) => rest.len() > 0 && rest[0] == ' ',
        None => false,
    }
}

pub fn takes_argument(send: &str, line: &str) -> (b: bool)
    ensures
        b == takes_argument_spec(send@, line@),
{
    let v = chars_of(line);
    let p = chars_of(send);
    let n = v.len();
    assert(v@.subrange(0, n as int) =~= v@);
    if !range_starts_with(&v, 0, n, &p) {
        return false;
    }
    let a = p.len();
    assert(v@.subrange(a as int, n as int) =~= v@.subrange(0, n as int).subrange(
        a as int,
        n as int,
    ));
    a < n && v[a] == ' '
}

// =======================================================================================
// A command-line flag typed at the prompt
// =======================================================================================

pub open spec fn all_digits(v: Seq<char>) -> bool {
    forall|i: int| 0 <= i < v.len() ==> 48 <= (#[trigger] v[i]) as u32 <= 57
}

/// `cmd`, followed by a space and the argument when there is one.
pub open spec fn with_arg(cmd: Seq<char>, one: Option<Seq<char>>) -> Seq<char> {
    match one {
        Some(p) => cmd + " "@ + p,
        None => cmd,
    }
}

/// What a flag typed at the prompt (with at most one word after it) is answered with: the
/// command it stands for (empty when there is none) and the reason.
pub open spec fn flag_reply(flag: Seq<char>, one: Option<Seq<char>>) -> Option<(Seq<char>, Seq<char>)> {
    let none = one is None;
    let number = one matches Some(v) && v.len() > 0 && all_digits(v);
    let named = one matches Some(v) && v.len() > 0 && v[0] != '-';
    if flag == "--web"@ && none {
        Some(("/web"@, "that flag opened it at start-up"@))
    } else if flag == "--port"@ && (none || number) {
        Some((with_arg("/web"@, one), "--web takes the port"@))
    } else if flag == "--provider"@ && (none || named) {
        Some((with_arg("/provider"@, one), "that flag chose one at start-up"@))
    } else if flag == "--model"@ && (none || named) {
        Some((with_arg("/model"@, one), "that flag chose one at start-up"@))
    } else if flag == "--readonly"@ && none {
        Some(("/readonly"@, "that flag is a toggle"@))
    } else if flag == "--verbose"@ && none {
        Some(("/verbose"@, "that flag is a toggle"@))
    } else if (flag == "--help"@ || flag == "-h"@) && none {
        Some(("/help"@, "this is the list"@))
    } else if flag == "--list-sessions"@ && none {
        Some(("/sessions"@, "this is the list"@))
    } else if flag == "--resume"@ && named {
        Some((with_arg("/resume"@, one), "this picks by number"@))
    } else if flag == "--name"@ && named {
        Some((with_arg("/name"@, one), "this names the open conversation"@))
    } else if flag == "--continue"@ && none {
        Some(("/sessions"@, "this lists them numbered, and `/resume <n>` picks one"@))
    } else if flag == "--json"@ || flag == "--no-color"@ || flag == "--cwd"@ || flag
        == "--schema"@ || flag == "--no-schema"@ || flag == "-p"@ {
        Some(
            (
                Seq::<char>::empty(),
                "that one is only read when flint starts, so it has to be on the command line"@,
            ),
        )
    } else {
        None
    }
}

/// A command-line flag typed at the prompt: only a line of one or two words whose first
/// word is exactly a flag is one.
pub open spec fn flag_at_the_prompt_spec(input: Seq<char>) -> Option<(Seq<char>, Seq<char>)> {
    let ws = words_of(input);
    if ws.len() == 0 || ws.len() > 2 {
        None
    } else {
        flag_reply(ws[0], if ws.len() == 2 { Some(ws[1]) } else { None })
    }
}

fn digits_only(v: &Vec<char>) -> (b: bool)
    ensures
        b == all_digits(v@),
{
    let mut i: usize = 0;
    while i < v.len()
        invariant
            i <= v@.len(),
            forall|k: int| 0 <= k < i ==> 48 <= (#[trigger] v@[k]) as u32 <= 57,
        decreases v@.len() - i,
    {
        let u = v[i] as u32;
        if u < 48 || u > 57 {
            return false;
        }
        i = i + 1;
    }
    true
}

fn command_with(cmd: &str, one: &Option<Vec<char>>) -> (r: String)
    ensures
        r@ == with_arg(cmd@, match one {
            Some(v) => Some(v@),
            None => None,
        }),
{
    let mut out = chars_of(cmd);
    match one {
        Some(v) => {
            extend_str(&mut out, " ");
            extend_chars(&mut out, v);
        },
        None => {},
    }
    string_of(&out)
}

fn reply(cmd: &str, why: &str) -> (r: Option<(String, String)>)
    ensures
        r matches Some((c, w)) && c@ == cmd@ && w@ == why@,
{
    Some((cmd.to_string(), why.to_string()))
}

/// A command-line flag typed at the prompt, and what to do about it: the command it stands
/// for (empty when the flag can only be given at start-up) and why.
pub fn flag_at_the_prompt(input: &str) -> (r: Option<(String, String)>)
    ensures
        match r {
            Some((c, w)) => flag_at_the_prompt_spec(input@) == Some((c@, w@)),
            None => flag_at_the_prompt_spec(input@) is None,
        },
{
    let v = chars_of(input);
    let ws = words(&v);
    if ws.len() == 0 || ws.len() > 2 {
        return None;
    }
    let flag = &ws[0];
    let one: Option<Vec<char>> = if ws.len() == 2 {
        Some(copy_range(&ws[1], 0, ws[1].len()))
    } else {
        None
    };
    proof {
        if ws@.len() == 2 {
            assert(ws@[1]@.subrange(0, ws@[1]@.len() as int) =~= ws@[1]@);
        }
    }
    let ghost onev: Option<Seq<char>> = match &one {
        Some(x) => Some(x@),
        None => None,
    };
    assert(onev == if views(ws@).len() == 2 {
        Some(views(ws@)[1])
    } else {
        None
    });
    let none = one.is_none();
    let number = match &one {
        Some(x) => x.len() > 0 && digits_only(x),
        None => false,
    };
    let named = match &one {
        Some(x) => x.len() > 0 && x[0] != '-',
        None => false,
    };
    if eq_str(flag, "--web") && none {
        reply("/web", "that flag opened it at start-up")
    } else if eq_str(flag, "--port") && (none || number) {
        Some((command_with("/web", &one), "--web takes the port".to_string()))
    } else if eq_str(flag, "--provider") && (none || named) {
        Some((command_with("/provider", &one), "that flag chose one at start-up".to_string()))
    } else if eq_str(flag, "--model") && (none || named) {
        Some((command_with("/model", &one), "that flag chose one at start-up".to_string()))
    } else if eq_str(flag, "--readonly") && none {
        reply("/readonly", "that flag is a toggle")
    } else if eq_str(flag, "--verbose") && none {
        reply("/verbose", "that flag is a toggle")
    } else if (eq_str(flag, "--help") || eq_str(flag, "-h")) && none {
        reply("/help", "this is the list")
    } else if eq_str(flag, "--list-sessions") && none {
        reply("/sessions", "this is the list")
    } else if eq_str(flag, "--resume") && named {
        Some((command_with("/resume", &one), "this picks by number".to_string()))
    } else if eq_str(flag, "--name") && named {
        Some((command_with("/name", &one), "this names the open conversation".to_string()))
    } else if eq_str(flag, "--continue") && none {
        reply("/sessions", "this lists them numbered, and `/resume <n>` picks one")
    } else if eq_str(flag, "--json") || eq_str(flag, "--no-color") || eq_str(flag, "--cwd")
        || eq_str(flag, "--schema") || eq_str(flag, "--no-schema") || eq_str(flag, "-p") {
        let empty: Vec<char> = Vec::new();
        Some(
            (
                string_of(&empty),
                "that one is only read when flint starts, so it has to be on the command line".to_string(),
            ),
        )
    } else {
        None
    }
}

/// Whether a line typed while the model is working is meant for the REPL rather than the
/// model: a command, a shell escape, or a flag typed at the prompt.
pub open spec fn for_the_repl_spec(line: Seq<char>) -> bool {
    (line.len() > 0 && (line[0] == '/' || line[0] == '!')) || flag_at_the_prompt_spec(line) is Some
}

pub fn for_the_repl(line: &str) -> (b: bool)
    ensures
        b == for_the_repl_spec(line@),
{
    let v = chars_of(line);
    if v.len() > 0 && (v[0] == '/' || v[0] == '!') {
        return true;
    }
    flag_at_the_prompt(line).is_some()
}

// =======================================================================================
// Small sentences
// =======================================================================================

/// "1 message" or "12 messages": a count as a person would write it.
pub open spec fn counted_spec(n: nat, noun: Seq<char>) -> Seq<char> {
    if n == 1 {
        "1 "@ + noun
    } else {
        decimal(n) + " "@ + noun + "s"@
    }
}

pub fn counted(n: usize, noun: &str) -> (s: String)
    ensures
        s@ == counted_spec(n as nat, noun@),
{
    let mut out: Vec<char> = Vec::new();
    if n == 1 {
        extend_str(&mut out, "1 ");
        extend_str(&mut out, noun);
    } else {
        let d = decimal_chars(n as u64);
        extend_chars(&mut out, &d);
        extend_str(&mut out, " ");
        extend_str(&mut out, noun);
        extend_str(&mut out, "s");
    }
    assert(out@ =~= counted_spec(n as nat, noun@));
    string_of(&out)
}

pub open spec fn is_path_sep(c: char) -> bool {
    c == '/' || c == '\\'
}

/// The position of the last `/` or `\` in `s`.
pub open spec fn last_path_sep(s: Seq<char>) -> Option<int>
    decreases s.len(),
{
    if s.len() == 0 {
        None
    } else if is_path_sep(s.last()) {
        Some(s.len() - 1)
    } else {
        last_path_sep(s.drop_last())
    }
}

/// The file name at the end of a path, whichever separator it was written with.
pub open spec fn file_name_of_spec(path: Seq<char>) -> Seq<char> {
    match last_path_sep(path) {
        Some(i) => path.subrange(i + 1, path.len() as int),
        None => path,
    }
}

pub fn file_name_of(path: &str) -> (s: String)
    ensures
        s@ == file_name_of_spec(path@),
{
    let v = chars_of(path);
    let n = v.len();
    let mut j = n;
    assert(v@.subrange(0, n as int) =~= v@);
    while j > 0 && !(v[j - 1] == '/' || v[j - 1] == '\\')
        invariant
            j <= n == v@.len(),
            last_path_sep(v@.subrange(0, j as int)) == last_path_sep(v@),
        decreases j,
    {
        assert(v@.subrange(0, j as int).drop_last() =~= v@.subrange(0, j - 1));
        j = j - 1;
    }
    if j == 0 {
        assert(v@.subrange(0, 0) =~= Seq::<char>::empty());
        return string_of(&v);
    }
    assert(v@.subrange(0, j as int).last() == v@[j - 1]);
    string_of(&copy_range(&v, j, n))
}

/// The line the transcript says under a command that sent a file's text as a message.
pub open spec fn sent_note_spec(text: Seq<char>, path: Option<Seq<char>>) -> Seq<char> {
    match path {
        Some(p) => "  sent "@ + decimal(text.len()) + " characters from "@ + p,
        None => "  sent "@ + decimal(text.len()) + " characters"@,
    }
}

pub fn sent_note(text: &str, path: Option<&str>) -> (s: String)
    ensures
        s@ == sent_note_spec(text@, match path {
            Some(p) => Some(p@),
            None => None,
        }),
{
    let size = chars_of(text).len();
    let mut out: Vec<char> = Vec::new();
    extend_str(&mut out, "  sent ");
    let d = decimal_chars(size as u64);
    extend_chars(&mut out, &d);
    match path {
        Some(p) => {
            extend_str(&mut out, " characters from ");
            extend_str(&mut out, p);
        },
        None => {
            extend_str(&mut out, " characters");
        },
    }
    string_of(&out)
}

// =======================================================================================
// Word wrap
// =======================================================================================

/// Greedy word wrap over the space-separated words `ws[k..]`: a word that would take the
/// line past `room` starts a new line, unless the line is empty.
pub open spec fn wrap_from(
    ws: Seq<Seq<char>>,
    k: int,
    out: Seq<Seq<char>>,
    line: Seq<char>,
    room: nat,
) -> Seq<Seq<char>>
    decreases ws.len() - k,
{
    if k >= ws.len() || k < 0 {
        out.push(line)
    } else {
        let w = ws[k];
        let grown = if line.len() == 0 {
            w.len()
        } else {
            line.len() + 1 + w.len()
        };
        let broke = grown > room && line.len() > 0;
        let out2 = if broke {
            out.push(line)
        } else {
            out
        };
        let line2 = if broke {
            Seq::<char>::empty()
        } else {
            line
        };
        let line3 = if line2.len() > 0 {
            line2.push(' ') + w
        } else {
            w
        };
        wrap_from(ws, k + 1, out2, line3, room)
    }
}

pub open spec fn wrap_spec(text: Seq<char>, room: nat) -> Seq<Seq<char>> {
    wrap_from(split_on(text, ' '), 0, seq![], seq![], room)
}

/// Whether the text holds no `c`.
pub open spec fn lacks(s: Seq<char>, c: char) -> bool {
    forall|i: int| 0 <= i < s.len() ==> s[i] != c
}

/// Whether a wrapped line keeps to the room: it does, or it is one word too long to break.
pub open spec fn fits(l: Seq<char>, room: nat) -> bool {
    l.len() <= room || lacks(l, ' ')
}

proof fn lemma_pieces_lack(s: Seq<char>, c: char)
    ensures
        forall|k: int| 0 <= k < split_on(s, c).len() ==> lacks(#[trigger] split_on(s, c)[k], c),
    decreases s.len(),
{
    crate::text::lemma_first_index_bounds(s, c);
    match crate::text::first_index(s, c) {
        Some(p) => {
            let rest = s.subrange(p + 1, s.len() as int);
            lemma_pieces_lack(rest, c);
            let out = split_on(s, c);
            assert(out == seq![s.subrange(0, p)] + split_on(rest, c));
            assert forall|k: int| 0 <= k < out.len() implies lacks(#[trigger] out[k], c) by {
                if k > 0 {
                    assert(out[k] == split_on(rest, c)[k - 1]);
                }
            }
        },
        None => {},
    }
}

proof fn lemma_wrap_fits(
    ws: Seq<Seq<char>>,
    k: int,
    out: Seq<Seq<char>>,
    line: Seq<char>,
    room: nat,
)
    requires
        0 <= k,
        forall|i: int| 0 <= i < ws.len() ==> lacks(#[trigger] ws[i], ' '),
        forall|i: int| 0 <= i < out.len() ==> fits(#[trigger] out[i], room),
        fits(line, room),
    ensures
        wrap_from(ws, k, out, line, room).len() > out.len(),
        forall|i: int|
            0 <= i < wrap_from(ws, k, out, line, room).len() ==> fits(
                #[trigger] wrap_from(ws, k, out, line, room)[i],
                room,
            ),
    decreases ws.len() - k,
{
    if k < ws.len() {
        let w = ws[k];
        let grown = if line.len() == 0 {
            w.len()
        } else {
            line.len() + 1 + w.len()
        };
        let broke = grown > room && line.len() > 0;
        let out2 = if broke {
            out.push(line)
        } else {
            out
        };
        let line2 = if broke {
            Seq::<char>::empty()
        } else {
            line
        };
        let line3 = if line2.len() > 0 {
            line2.push(' ') + w
        } else {
            w
        };
        assert forall|i: int| 0 <= i < out2.len() implies fits(#[trigger] out2[i], room) by {
            if i < out.len() {
                assert(out2[i] == out[i]);
            }
        }
        assert(lacks(w, ' '));
        assert(fits(line3, room));
        lemma_wrap_fits(ws, k + 1, out2, line3, room);
    } else {
        let r = out.push(line);
        assert forall|i: int| 0 <= i < r.len() implies fits(#[trigger] r[i], room) by {
            if i < out.len() {
                assert(r[i] == out[i]);
            }
        }
    }
}

/// The wrap is greedy and keeps to the room: it gives at least one line, and a line longer
/// than the room is a single word that no break could shorten.
pub proof fn law_a_wrapped_line_keeps_to_the_room(text: Seq<char>, room: nat)
    ensures
        wrap_spec(text, room).len() >= 1,
        forall|i: int|
            0 <= i < wrap_spec(text, room).len() ==> fits(#[trigger] wrap_spec(text, room)[i], room),
{
    lemma_pieces_lack(text, ' ');
    lemma_wrap_fits(split_on(text, ' '), 0, seq![], seq![], room);
}

/// Greedy word wrap: break before the word that would pass `room`.
pub fn wrap(text: &str, room: usize) -> (out: Vec<String>)
    ensures
        out@.map_values(|s: String| s@) == wrap_spec(text@, room as nat),
{
    let v = chars_of(text);
    assert(v@.subrange(0, v@.len() as int) =~= v@);
    let ws = split_chars(&v, 0, v.len(), ' ');
    let ghost wv = views(ws@);
    let mut done: Vec<Vec<char>> = Vec::new();
    let mut line: Vec<char> = Vec::new();
    let mut k: usize = 0;
    assert(views(done@) =~= Seq::<Seq<char>>::empty());
    while k < ws.len()
        invariant
            k <= ws@.len(),
            wv == views(ws@),
            wv == split_on(text@, ' '),
            wrap_from(wv, k as int, views(done@), line@, room as nat) == wrap_spec(
                text@,
                room as nat,
            ),
        decreases ws@.len() - k,
    {
        let w = &ws[k];
        let broke = if line.len() == 0 {
            false
        } else if line.len() >= room {
            true
        } else {
            w.len() > room - line.len() - 1
        };
        if broke {
            let ghost d0 = views(done@);
            let ghost r0 = done@;
            let taken = line;
            done.push(taken);
            assert(done@ == r0.push(taken));
            assert(views(done@) =~= d0.push(taken@));
            line = Vec::new();
        }
        if line.len() > 0 {
            line.push(' ');
        }
        let ghost l0 = line@;
        extend_chars(&mut line, w);
        proof {
            if l0.len() == 0 {
                assert(line@ =~= w@);
            }
        }
        k = k + 1;
    }
    let ghost d0 = views(done@);
    let ghost r0 = done@;
    let taken = line;
    done.push(taken);
    assert(done@ == r0.push(taken));
    assert(views(done@) =~= d0.push(taken@));
    let mut out: Vec<String> = Vec::new();
    let mut i: usize = 0;
    while i < done.len()
        invariant
            i <= done@.len(),
            out@.map_values(|s: String| s@) == views(done@).subrange(0, i as int),
        decreases done@.len() - i,
    {
        let ghost o0 = out@;
        let st = string_of(&done[i]);
        out.push(st);
        assert(out@ == o0.push(st));
        assert(out@.map_values(|s: String| s@) =~= o0.map_values(|s: String| s@).push(
            done@[i as int]@,
        ));
        i = i + 1;
        assert(views(done@).subrange(0, i as int) =~= views(done@).subrange(0, i - 1).push(
            done@[i - 1]@,
        ));
    }
    assert(views(done@).subrange(0, done@.len() as int) =~= views(done@));
    out
}

// =======================================================================================
// The repair prompt, and the first line of an answer
// =======================================================================================

pub open spec fn listed_errors(errors: Seq<String>) -> Seq<Seq<char>> {
    Seq::new(errors.len(), |i: int| "- "@ + errors[i]@)
}

/// The prompt for a repair turn: what was wrong, one `- ` line per problem, and the answer
/// quoted back.
pub open spec fn repair_prompt_spec(previous: Seq<char>, errors: Seq<String>) -> Seq<char> {
    "That answer does not match the schema. Fix it and answer again with the corrected JSON object and nothing else.\n\nWhat was wrong:\n"@
        + join_with(listed_errors(errors), "\n"@) + "\n\nThe answer you gave was:\n"@ + previous
}

pub fn repair_prompt(previous: &str, errors: &[String]) -> (s: String)
    ensures
        s@ == repair_prompt_spec(previous@, errors@),
{
    let mut items: Vec<Vec<char>> = Vec::new();
    let mut i: usize = 0;
    while i < errors.len()
        invariant
            i <= errors@.len(),
            views(items@) == listed_errors(errors@).subrange(0, i as int),
        decreases errors@.len() - i,
    {
        let mut item = chars_of("- ");
        extend_str(&mut item, errors[i].as_str());
        let ghost r0 = items@;
        items.push(item);
        assert(items@ == r0.push(item));
        assert(views(items@) =~= views(r0).push(item@));
        i = i + 1;
        assert(listed_errors(errors@).subrange(0, i as int) =~= listed_errors(errors@).subrange(
            0,
            i - 1,
        ).push("- "@ + errors@[i - 1]@));
    }
    assert(listed_errors(errors@).subrange(0, errors@.len() as int) =~= listed_errors(errors@));
    let nl = chars_of("\n");
    let listed = join_chars(&items, &nl);
    let mut out = chars_of(
        "That answer does not match the schema. Fix it and answer again with the corrected JSON object and nothing else.\n\nWhat was wrong:\n",
    );
    extend_chars(&mut out, &listed);
    extend_str(&mut out, "\n\nThe answer you gave was:\n");
    extend_str(&mut out, previous);
    string_of(&out)
}

/// The first line of `ls` that holds more than whitespace, or nothing.
pub open spec fn first_nonblank(ls: Seq<Seq<char>>) -> Seq<char>
    decreases ls.len(),
{
    if ls.len() == 0 {
        Seq::<char>::empty()
    } else if trim(ls[0]).len() > 0 {
        ls[0]
    } else {
        first_nonblank(ls.drop_first())
    }
}

/// The first line of an answer with anything on it, cut at 200 characters with `…`.
pub open spec fn first_line_spec(text: Seq<char>) -> Seq<char> {
    let l = first_nonblank(lines_of(text));
    if l.len() > 200 {
        l.subrange(0, 200).push('…')
    } else {
        l
    }
}

pub fn first_line(text: &str) -> (s: String)
    ensures
        s@ == first_line_spec(text@),
{
    let ls = lines(text);
    let ghost all = views(ls@);
    let mut i: usize = 0;
    assert(all.subrange(0, all.len() as int) =~= all);
    while i < ls.len()
        invariant
            i <= ls@.len(),
            all == views(ls@),
            all == lines_of(text@),
            first_nonblank(all.subrange(i as int, all.len() as int)) == first_nonblank(all),
        decreases ls@.len() - i,
    {
        let n = ls[i].len();
        let e = trim_end_at(&ls[i], 0, n);
        let b = trim_start_at(&ls[i], 0, e);
        assert(ls@[i as int]@.subrange(0, n as int) =~= ls@[i as int]@);
        if b < e {
            let l = &ls[i];
            assert(all.subrange(i as int, all.len() as int)[0] == l@);
            assert(trim(l@).len() > 0);
            if n > 200 {
                let mut cut = copy_range(l, 0, 200);
                cut.push('…');
                return string_of(&cut);
            }
            return string_of(&copy_range(l, 0, n));
        }
        assert(all.subrange(i as int, all.len() as int).drop_first() =~= all.subrange(
            i + 1,
            all.len() as int,
        ));
        i = i + 1;
    }
    let empty: Vec<char> = Vec::new();
    string_of(&empty)
}

// =======================================================================================
// Replaying a loaded conversation
// =======================================================================================

/// How a line of a replayed transcript is drawn: a person's question (after a bold `>`),
/// the model's text, or an aside in a dim tone.
#[derive(Debug, Clone, Copy, PartialEq, Eq)]
pub enum Tone {
    Asked,
    Said,
    Aside,
}

/// How many messages a replay shows, the last ones.
pub const TRANSCRIPT_TAIL: usize = 12;

/// The messages of a conversation a replay can show: all but the system prompts, in order.
pub open spec fn shown(h: Seq<crate::event::MessageView>) -> Seq<crate::event::MessageView>
    decreases h.len(),
{
    if h.len() == 0 {
        Seq::empty()
    } else if h.last() is System {
        shown(h.drop_last())
    } else {
        shown(h.drop_last()).push(h.last())
    }
}

/// The first line of a text (`str::lines().next()`), or nothing.
pub open spec fn first_of(text: Seq<char>) -> Seq<char> {
    if lines_of(text).len() > 0 {
        lines_of(text)[0]
    } else {
        Seq::empty()
    }
}

/// At most the first `n` characters.
pub open spec fn at_most(s: Seq<char>, n: nat) -> Seq<char> {
    if s.len() > n {
        s.take(n as int)
    } else {
        s
    }
}

/// The lines one message is replayed as: a question as it was asked; the model's text,
/// trimmed, when there is any, and a line per tool it called; the first line of a tool's
/// output, trimmed and cut at 100 characters.
pub open spec fn message_lines(m: crate::event::MessageView) -> Seq<(Tone, Seq<char>)> {
    match m {
        crate::event::MessageView::User { content } => seq![(Tone::Asked, content)],
        crate::event::MessageView::Assistant { content, tool_calls, .. } => {
            let t = trim(
                match content {
                    Some(c) => c,
                    None => Seq::empty(),
                },
            );
            (if t.len() > 0 {
                seq![(Tone::Said, t)]
            } else {
                Seq::empty()
            }) + Seq::new(tool_calls.len(), |k: int| (Tone::Aside, "  ✓ "@ + tool_calls[k].name))
        },
        crate::event::MessageView::Tool { content, .. } => seq![
            (Tone::Aside, "  │ "@ + at_most(trim(first_of(content)), 100)),
        ],
        crate::event::MessageView::System { .. } => Seq::empty(),
    }
}

/// The lines of these messages, in order.
pub open spec fn lines_for(ms: Seq<crate::event::MessageView>) -> Seq<(Tone, Seq<char>)>
    decreases ms.len(),
{
    if ms.len() == 0 {
        Seq::empty()
    } else {
        lines_for(ms.drop_last()) + message_lines(ms.last())
    }
}

/// The messages from the `k`-th on; none when there are fewer.
pub open spec fn from_index(s: Seq<crate::event::MessageView>, k: nat) -> Seq<
    crate::event::MessageView,
> {
    if k <= s.len() {
        s.skip(k as int)
    } else {
        Seq::empty()
    }
}

/// How many of the shown messages a replay leaves out: all but the last twelve.
pub open spec fn left_out(h: Seq<crate::event::MessageView>) -> nat {
    if shown(h).len() > TRANSCRIPT_TAIL {
        (shown(h).len() - TRANSCRIPT_TAIL) as nat
    } else {
        0
    }
}

/// The heading of a replay: `── resumed transcript ──`, saying how many earlier messages
/// are left out when some are.
pub open spec fn transcript_heading(left: nat) -> Seq<char> {
    "── "@ + (if left > 0 {
        "— "@ + counted_spec(left, "earlier message"@) + ", "@
    } else {
        Seq::empty()
    }) + "resumed transcript"@ + " ──"@
}

/// The texts of replayed lines.
pub open spec fn tone_views(v: Seq<(Tone, String)>) -> Seq<(Tone, Seq<char>)> {
    v.map_values(|l: (Tone, String)| (l.0, l.1@))
}

/// Append the lines one message is replayed as.
fn push_message_lines(out: &mut Vec<(Tone, String)>, m: &crate::event::Message)
    ensures
        tone_views(final(out)@) == tone_views(old(out)@) + message_lines(m@),
{
    let ghost before = tone_views(out@);
    match m {
        crate::event::Message::User { content } => {
            out.push((Tone::Asked, string_of(&chars_of(content.as_str()))));
            assert(tone_views(out@) =~= before + message_lines(m@));
        },
        crate::event::Message::Assistant { content, tool_calls, .. } => {
            let t = match content {
                Some(c) => crate::text::trim_str(c.as_str()),
                None => crate::text::trim_str(""),
            };
            proof {
                let e: &str = "";
                assert(e@ =~= Seq::<char>::empty()) by {
                    reveal_strlit("");
                }
            }
            let tv = chars_of(t.as_str());
            if tv.len() > 0 {
                out.push((Tone::Said, t));
            }
            let ghost mid = tone_views(out@);
            let ghost said = if trim(
                match ov(*content) {
                    Some(c) => c,
                    None => Seq::empty(),
                },
            ).len() > 0 {
                seq![
                    (Tone::Said, trim(
                        match ov(*content) {
                            Some(c) => c,
                            None => Seq::empty(),
                        },
                    )),
                ]
            } else {
                Seq::<(Tone, Seq<char>)>::empty()
            };
            assert(mid =~= before + said);
            let mut k: usize = 0;
            while k < tool_calls.len()
                invariant
                    k <= tool_calls@.len(),
                    tone_views(out@) =~= mid + Seq::new(
                        k as nat,
                        |j: int| (Tone::Aside, "  ✓ "@ + tool_calls@[j].name@),
                    ),
                decreases tool_calls@.len() - k,
            {
                let mut line = chars_of("  ✓ ");
                extend_str(&mut line, tool_calls[k].name.as_str());
                let ghost prev = tone_views(out@);
                let text = string_of(&line);
                out.push((Tone::Aside, text));
                assert(tone_views(out@) =~= prev.push((Tone::Aside, text@)));
                assert(text@ == "  ✓ "@ + tool_calls@[k as int].name@);
                k = k + 1;
                assert(tone_views(out@) =~= mid + Seq::new(
                    k as nat,
                    |j: int| (Tone::Aside, "  ✓ "@ + tool_calls@[j].name@),
                ));
            }
            assert(Seq::new(
                tool_calls@.len(),
                |j: int| (Tone::Aside, "  ✓ "@ + tool_calls@[j].name@),
            ) =~= Seq::new(
                crate::event::tool_call_views(tool_calls@).len(),
                |j: int| (Tone::Aside, "  ✓ "@ + crate::event::tool_call_views(tool_calls@)[j].name),
            ));
        },
        crate::event::Message::Tool { content, .. } => {
            let ls = lines(content.as_str());
            let first: Vec<char> = if ls.len() > 0 {
                copy_range(&ls[0], 0, ls[0].len())
            } else {
                Vec::new()
            };
            proof {
                if ls@.len() > 0 {
                    assert(views(ls@)[0] == ls@[0]@);
                    assert(ls@[0]@.subrange(0, ls@[0]@.len() as int) =~= ls@[0]@);
                }
                assert(first@ =~= first_of(content@));
            }
            let n = first.len();
            let e = trim_end_at(&first, 0, n);
            let b = trim_start_at(&first, 0, e);
            assert(first@.subrange(0, n as int) =~= first@);
            let hi = if e - b > 100 {
                b + 100
            } else {
                e
            };
            let mut line = chars_of("  │ ");
            let cut = copy_range(&first, b, hi);
            assert(cut@ =~= at_most(trim(first@), 100));
            extend_chars(&mut line, &cut);
            out.push((Tone::Aside, string_of(&line)));
            assert(tone_views(out@) =~= before + message_lines(m@));
        },
        crate::event::Message::System { .. } => {
            assert(tone_views(out@) =~= before + message_lines(m@));
        },
    }
}

/// A loaded conversation, to replay on the screen: its heading and its last twelve messages
/// that are not system prompts, line by line.
pub fn transcript(history: &[crate::event::Message]) -> (r: (String, Vec<(Tone, String)>))
    ensures
        ({
            let h = crate::event::message_views(history@);
            &&& r.0@ == transcript_heading(left_out(h))
            &&& tone_views(r.1@) == lines_for(from_index(shown(h), left_out(h)))
        }),
{
    let ghost h = crate::event::message_views(history@);
    let mut count: usize = 0;
    let mut i: usize = 0;
    while i < history.len()
        invariant
            i <= history@.len(),
            h == crate::event::message_views(history@),
            count == shown(h.take(i as int)).len(),
            count <= i,
        decreases history@.len() - i,
    {
        proof {
            assert(h.take(i + 1).drop_last() =~= h.take(i as int));
            assert(h.take(i + 1).last() == history@[i as int]@);
        }
        match &history[i] {
            crate::event::Message::System { .. } => {},
            _ => {
                count = count + 1;
            },
        }
        i = i + 1;
    }
    assert(h.take(history@.len() as int) =~= h);
    let start: usize = if count > TRANSCRIPT_TAIL {
        count - TRANSCRIPT_TAIL
    } else {
        0
    };
    let mut out: Vec<(Tone, String)> = Vec::new();
    let mut seen: usize = 0;
    let mut i: usize = 0;
    assert(tone_views(out@) =~= lines_for(from_index(shown(h.take(0)), start as nat)));
    while i < history.len()
        invariant
            i <= history@.len(),
            h == crate::event::message_views(history@),
            seen == shown(h.take(i as int)).len(),
            seen <= i,
            tone_views(out@) == lines_for(from_index(shown(h.take(i as int)), start as nat)),
        decreases history@.len() - i,
    {
        let ghost before = shown(h.take(i as int));
        proof {
            assert(h.take(i + 1).drop_last() =~= h.take(i as int));
            assert(h.take(i + 1).last() == history@[i as int]@);
        }
        let system = match &history[i] {
            crate::event::Message::System { .. } => true,
            _ => false,
        };
        if !system {
            if seen >= start {
                push_message_lines(&mut out, &history[i]);
                proof {
                    let after = before.push(history@[i as int]@);
                    assert(from_index(after, start as nat) =~= from_index(before, start as nat).push(
                        history@[i as int]@,
                    ));
                    assert(from_index(after, start as nat).drop_last() =~= from_index(
                        before,
                        start as nat,
                    ));
                }
            } else {
                proof {
                    let after = before.push(history@[i as int]@);
                    assert(from_index(after, start as nat) =~= Seq::<crate::event::MessageView>::empty());
                    assert(from_index(before, start as nat) =~= Seq::<crate::event::MessageView>::empty());
                }
            }
            seen = seen + 1;
        }
        i = i + 1;
    }
    assert(h.take(history@.len() as int) =~= h);
    let mut heading = chars_of("── ");
    if start > 0 {
        extend_str(&mut heading, "— ");
        let c = counted(start, "earlier message");
        extend_str(&mut heading, c.as_str());
        extend_str(&mut heading, ", ");
    }
    extend_str(&mut heading, "resumed transcript");
    extend_str(&mut heading, " ──");
    proof {
        let mid = if start > 0 {
            "— "@ + counted_spec(start as nat, "earlier message"@) + ", "@
        } else {
            Seq::<char>::empty()
        };
        assert(heading@ =~= "── "@ + mid + "resumed transcript"@ + " ──"@);
    }
    (string_of(&heading), out)
}

} // verus!
