//! The patch format, and applying it to file contents.
//!
//! `*** Begin Patch` / `*** Add File:` / `*** Update File:` / `*** Delete File:` /
//! `*** End Patch`. A hunk is located by its own lines, never by line numbers: if the
//! context and the removed lines are not in the file exactly once, the hunk does not apply.
//! [`parse`] is a function of the text alone and [`apply_to`] a function of one file's
//! contents, so nothing here touches a filesystem.
use vstd::prelude::*;

use crate::text::{
    chars_eq, chars_of, copy_range, extend_chars, find_char, first_index, lines, lines_of,
    range_eq, range_starts_with, starts_with, string_of, strip_prefix, trim, trim_end,
    trim_end_at, trim_start_at, views, split_on, split_chars, extend_str, decimal,
    decimal_chars, join_nl, join_lines, join_lines_exec,
};

verus! {

// =======================================================================================
// Types
// =======================================================================================

/// One file's worth of the patch.
#[derive(Debug, PartialEq)]
pub enum Change {
    Add { path: String, content: String },
    Update { path: String, hunks: Vec<Hunk> },
    Delete { path: String },
}

/// A contiguous replacement: lines that must be there, and lines that replace them.
#[derive(Debug, PartialEq)]
pub struct Hunk {
    /// Lines expected in the file: context lines and removed lines, in order.
    pub old: Vec<String>,
    /// Lines that take their place: context lines and added lines, in order.
    pub new: Vec<String>,
}

/// Why a patch could not be read, or could not be applied to a file.
#[derive(Debug, PartialEq)]
pub enum PatchError {
    /// No line reads `*** Begin Patch`.
    NoBegin,
    /// The lines ran out before `*** End Patch`.
    NoEnd,
    /// A start and an end with no file between them.
    Empty,
    /// A line where a directive was expected is not one.
    NotADirective { line: usize, text: String },
    /// A directive names no file.
    NoPath { line: usize, kind: String },
    /// A line of an added file does not start with `+`.
    AddLineWithoutPlus { line: usize },
    /// An update with no hunk in it.
    UpdateWithoutChanges { path: String },
    /// A hunk with neither context nor removed lines, which therefore has no location.
    HunkWithoutLocation,
    /// A line inside a hunk that starts with none of `+`, `-` or a space.
    HunkLineWithoutMarker { line: usize, text: String },
    /// An added file is already there.
    AlreadyExists { path: String },
    /// A deleted file is not there.
    DeleteMissing { path: String },
    /// An updated file is not there.
    UpdateMissing { path: String },
    /// A hunk's old lines are not in the file.
    NotInFile { hunk: usize, path: String },
    /// A hunk's old lines are in the file more than once.
    Ambiguous { times: usize, hunk: usize, path: String },
}

pub ghost struct HunkView {
    pub old: Seq<Seq<char>>,
    pub new: Seq<Seq<char>>,
}

pub ghost enum ChangeView {
    Add { path: Seq<char>, content: Seq<char> },
    Update { path: Seq<char>, hunks: Seq<HunkView> },
    Delete { path: Seq<char> },
}

pub ghost enum PatchErrorView {
    NoBegin,
    NoEnd,
    Empty,
    NotADirective { line: nat, text: Seq<char> },
    NoPath { line: nat, kind: Seq<char> },
    AddLineWithoutPlus { line: nat },
    UpdateWithoutChanges { path: Seq<char> },
    HunkWithoutLocation,
    HunkLineWithoutMarker { line: nat, text: Seq<char> },
    AlreadyExists { path: Seq<char> },
    DeleteMissing { path: Seq<char> },
    UpdateMissing { path: Seq<char> },
    NotInFile { hunk: nat, path: Seq<char> },
    Ambiguous { times: nat, hunk: nat, path: Seq<char> },
}

pub open spec fn string_views(v: Seq<String>) -> Seq<Seq<char>> {
    v.map_values(|s: String| s@)
}

impl View for Hunk {
    type V = HunkView;

    open spec fn view(&self) -> HunkView {
        HunkView { old: string_views(self.old@), new: string_views(self.new@) }
    }
}

pub open spec fn hunk_views(v: Seq<Hunk>) -> Seq<HunkView> {
    v.map_values(|h: Hunk| h@)
}

impl View for Change {
    type V = ChangeView;

    open spec fn view(&self) -> ChangeView {
        match self {
            Change::Add { path, content } => ChangeView::Add { path: path@, content: content@ },
            Change::Update { path, hunks } => ChangeView::Update {
                path: path@,
                hunks: hunk_views(hunks@),
            },
            Change::Delete { path } => ChangeView::Delete { path: path@ },
        }
    }
}

pub open spec fn change_views(v: Seq<Change>) -> Seq<ChangeView> {
    v.map_values(|c: Change| c@)
}

impl View for PatchError {
    type V = PatchErrorView;

    open spec fn view(&self) -> PatchErrorView {
        match self {
            PatchError::NoBegin => PatchErrorView::NoBegin,
            PatchError::NoEnd => PatchErrorView::NoEnd,
            PatchError::Empty => PatchErrorView::Empty,
            PatchError::NotADirective { line, text } => PatchErrorView::NotADirective {
                line: *line as nat,
                text: text@,
            },
            PatchError::NoPath { line, kind } => PatchErrorView::NoPath {
                line: *line as nat,
                kind: kind@,
            },
            PatchError::AddLineWithoutPlus { line } => PatchErrorView::AddLineWithoutPlus {
                line: *line as nat,
            },
            PatchError::UpdateWithoutChanges { path } => PatchErrorView::UpdateWithoutChanges {
                path: path@,
            },
            PatchError::HunkWithoutLocation => PatchErrorView::HunkWithoutLocation,
            PatchError::HunkLineWithoutMarker { line, text } =>
                PatchErrorView::HunkLineWithoutMarker { line: *line as nat, text: text@ },
            PatchError::AlreadyExists { path } => PatchErrorView::AlreadyExists { path: path@ },
            PatchError::DeleteMissing { path } => PatchErrorView::DeleteMissing { path: path@ },
            PatchError::UpdateMissing { path } => PatchErrorView::UpdateMissing { path: path@ },
            PatchError::NotInFile { hunk, path } => PatchErrorView::NotInFile {
                hunk: *hunk as nat,
                path: path@,
            },
            PatchError::Ambiguous { times, hunk, path } => PatchErrorView::Ambiguous {
                times: *times as nat,
                hunk: *hunk as nat,
                path: path@,
            },
        }
    }
}

// =======================================================================================
// The grammar
// =======================================================================================

pub open spec fn begin_marker() -> Seq<char> {
    "*** Begin Patch"@
}

pub open spec fn end_marker() -> Seq<char> {
    "*** End Patch"@
}

pub open spec fn directive_prefix() -> Seq<char> {
    "*** "@
}

pub open spec fn add_kind() -> Seq<char> {
    "Add File"@
}

pub open spec fn update_kind() -> Seq<char> {
    "Update File"@
}

pub open spec fn delete_kind() -> Seq<char> {
    "Delete File"@
}

pub open spec fn hunk_marker() -> Seq<char> {
    "@@"@
}

/// `*** Update File: src/main.rs` read as `("Update File", "src/main.rs")`: the kind is what
/// precedes the first colon, the path what follows it, both trimmed; a line with no colon
/// has an empty path. Only the three kinds are directives.
pub open spec fn directive_of(line: Seq<char>) -> Option<(Seq<char>, Seq<char>)> {
    match strip_prefix(line, directive_prefix()) {
        None => None,
        Some(rest) => {
            let kind = match first_index(rest, ':') {
                Some(c) => trim(rest.subrange(0, c)),
                None => trim(rest),
            };
            let path = match first_index(rest, ':') {
                Some(c) => trim(rest.subrange(c + 1, rest.len() as int)),
                None => Seq::<char>::empty(),
            };
            if kind == add_kind() || kind == update_kind() || kind == delete_kind() {
                Some((kind, path))
            } else {
                None
            }
        },
    }
}

/// A line that ends the block in front of it: `*** End Patch` or a file directive.
pub open spec fn is_directive(line: Seq<char>) -> bool {
    trim(trim_end(line)) == end_marker() || directive_of(trim_end(line)) is Some
}

/// The first line at or after `i` that is a directive (or the end of the lines).
pub open spec fn block_end(ls: Seq<Seq<char>>, i: int) -> int
    decreases ls.len() - i,
{
    if i >= ls.len() || i < 0 {
        ls.len() as int
    } else if is_directive(ls[i]) {
        i
    } else {
        block_end(ls, i + 1)
    }
}

pub open spec fn starts_with_char(s: Seq<char>, c: char) -> bool {
    s.len() > 0 && s[0] == c
}

/// Every line of an added file's body starts with `+`.
pub open spec fn add_body_ok(ls: Seq<Seq<char>>, i: int, j: int) -> bool {
    forall|k: int| i <= k < j ==> starts_with_char(#[trigger] ls[k], '+')
}

/// An added file's content: its body lines without their `+`.
pub open spec fn add_content(ls: Seq<Seq<char>>, i: int, j: int) -> Seq<char> {
    join_lines(Seq::new((j - i) as nat, |k: int| ls[i + k].drop_first()))
}

pub ghost struct HunkAcc {
    pub hunks: Seq<HunkView>,
    pub old: Seq<Seq<char>>,
    pub new: Seq<Seq<char>>,
    pub open: bool,
}

/// Close the hunk in progress, if there is one.
pub open spec fn flush(a: HunkAcc) -> Result<Seq<HunkView>, PatchErrorView> {
    if !a.open {
        Ok(a.hunks)
    } else if a.old.len() == 0 {
        Err(PatchErrorView::HunkWithoutLocation)
    } else {
        Ok(a.hunks.push(HunkView { old: a.old, new: a.new }))
    }
}

/// The hunks of an update's lines `ls[k..j]`, given what was read before `k`.
///
/// `@@` starts a hunk; `+` is a new line, `-` an old one, a space or a blank line is both
/// (context). The line is read without its trailing whitespace.
pub open spec fn hunks_from(ls: Seq<Seq<char>>, k: int, j: int, a: HunkAcc) -> Result<
    Seq<HunkView>,
    PatchErrorView,
>
    decreases j - k,
{
    if k >= j || k < 0 || k >= ls.len() {
        flush(a)
    } else {
        let t = trim_end(ls[k]);
        if starts_with(t, hunk_marker()) {
            match flush(a) {
                Err(e) => Err(e),
                Ok(hs) => hunks_from(
                    ls,
                    k + 1,
                    j,
                    HunkAcc { hunks: hs, old: seq![], new: seq![], open: true },
                ),
            }
        } else if starts_with_char(t, '+') {
            hunks_from(ls, k + 1, j, HunkAcc { new: a.new.push(t.drop_first()), open: true, ..a })
        } else if starts_with_char(t, '-') {
            hunks_from(ls, k + 1, j, HunkAcc { old: a.old.push(t.drop_first()), open: true, ..a })
        } else if starts_with_char(t, ' ') {
            hunks_from(
                ls,
                k + 1,
                j,
                HunkAcc {
                    old: a.old.push(t.drop_first()),
                    new: a.new.push(t.drop_first()),
                    open: true,
                    ..a
                },
            )
        } else if t.len() == 0 {
            hunks_from(
                ls,
                k + 1,
                j,
                HunkAcc {
                    old: a.old.push(Seq::<char>::empty()),
                    new: a.new.push(Seq::<char>::empty()),
                    open: true,
                    ..a
                },
            )
        } else {
            Err(PatchErrorView::HunkLineWithoutMarker { line: (k + 1) as nat, text: t })
        }
    }
}

pub open spec fn empty_acc() -> HunkAcc {
    HunkAcc { hunks: seq![], old: seq![], new: seq![], open: false }
}

/// The changes of the lines from `i` on, after the changes `acc` already read.
pub open spec fn changes_from(ls: Seq<Seq<char>>, i: int, acc: Seq<ChangeView>) -> Result<
    Seq<ChangeView>,
    PatchErrorView,
>
    decreases ls.len() - i,
{
    if i >= ls.len() || i < 0 {
        Err(PatchErrorView::NoEnd)
    } else {
        let line = trim_end(ls[i]);
        if trim(line) == end_marker() {
            if acc.len() == 0 {
                Err(PatchErrorView::Empty)
            } else {
                Ok(acc)
            }
        } else {
            match directive_of(line) {
                None => Err(PatchErrorView::NotADirective { line: (i + 1) as nat, text: line }),
                Some((kind, path)) => {
                    if path.len() == 0 {
                        Err(PatchErrorView::NoPath { line: (i + 1) as nat, kind })
                    } else if kind == add_kind() {
                        let j = block_end(ls, i + 1);
                        proof {
                            lemma_block_end_bounds(ls, i + 1);
                        }
                        if !add_body_ok(ls, i + 1, j) {
                            Err(PatchErrorView::AddLineWithoutPlus { line: (i + 1) as nat })
                        } else {
                            changes_from(
                                ls,
                                j,
                                acc.push(ChangeView::Add { path, content: add_content(ls, i + 1, j) }),
                            )
                        }
                    } else if kind == delete_kind() {
                        changes_from(ls, i + 1, acc.push(ChangeView::Delete { path }))
                    } else {
                        let j = block_end(ls, i + 1);
                        proof {
                            lemma_block_end_bounds(ls, i + 1);
                        }
                        match hunks_from(ls, i + 1, j, empty_acc()) {
                            Err(e) => Err(e),
                            Ok(hs) => if hs.len() == 0 {
                                Err(PatchErrorView::UpdateWithoutChanges { path })
                            } else {
                                changes_from(ls, j, acc.push(ChangeView::Update { path, hunks: hs }))
                            },
                        }
                    }
                },
            }
        }
    }
}

/// The first line at or after `i` that reads `*** Begin Patch`, trimmed.
pub open spec fn find_begin(ls: Seq<Seq<char>>, i: int) -> Option<int>
    decreases ls.len() - i,
{
    if i >= ls.len() || i < 0 {
        None
    } else if trim(ls[i]) == begin_marker() {
        Some(i)
    } else {
        find_begin(ls, i + 1)
    }
}

/// What a patch text says: the text before `*** Begin Patch` is ignored, and the lines
/// after it are read as changes up to `*** End Patch`.
pub open spec fn parse_spec(text: Seq<char>) -> Result<Seq<ChangeView>, PatchErrorView> {
    let ls = lines_of(text);
    match find_begin(ls, 0) {
        None => Err(PatchErrorView::NoBegin),
        Some(b) => changes_from(ls, b + 1, seq![]),
    }
}

pub open spec fn parse_result_view(r: Result<Vec<Change>, PatchError>) -> Result<
    Seq<ChangeView>,
    PatchErrorView,
> {
    match r {
        Ok(cs) => Ok(change_views(cs@)),
        Err(e) => Err(e@),
    }
}

// =======================================================================================
// Reading a patch
// =======================================================================================

pub proof fn lemma_block_end_bounds(ls: Seq<Seq<char>>, i: int)
    requires
        0 <= i <= ls.len(),
    ensures
        i <= block_end(ls, i) <= ls.len(),
        forall|k: int| i <= k < block_end(ls, i) ==> !is_directive(#[trigger] ls[k]),
    decreases ls.len() - i,
{
    if i < ls.len() && !is_directive(ls[i]) {
        lemma_block_end_bounds(ls, i + 1);
    }
}

/// The start and end of `v[lo..hi]` trimmed at both ends.
fn trimmed(v: &Vec<char>, lo: usize, hi: usize) -> (r: (usize, usize))
    requires
        lo <= hi <= v@.len(),
    ensures
        lo <= r.0 <= r.1 <= hi,
        v@.subrange(r.0 as int, r.1 as int) == trim(v@.subrange(lo as int, hi as int)),
{
    let e = trim_end_at(v, lo, hi);
    let s = trim_start_at(v, lo, e);
    (s, e)
}

/// The directive on the line `line[..hi]`, when it is one.
fn directive_at(line: &Vec<char>, hi: usize) -> (r: Option<(Vec<char>, Vec<char>)>)
    requires
        hi <= line@.len(),
    ensures
        match r {
            Some((k, p)) => directive_of(line@.subrange(0, hi as int)) == Some((k@, p@)),
            None => directive_of(line@.subrange(0, hi as int)) is None,
        },
{
    let ghost l = line@.subrange(0, hi as int);
    let pre = chars_of("*** ");
    if !range_starts_with(line, 0, hi, &pre) {
        return None;
    }
    let a = pre.len();
    let ghost rest = l.subrange(a as int, l.len() as int);
    assert(rest =~= line@.subrange(a as int, hi as int));
    let (kind, path) = match find_char(line, a, hi, ':') {
        Some(c) => {
            let (ks, ke) = trimmed(line, a, c);
            let (ps, pe) = trimmed(line, c + 1, hi);
            assert(rest.subrange(0, c - a) =~= line@.subrange(a as int, c as int));
            assert(rest.subrange(c - a + 1, rest.len() as int) =~= line@.subrange(
                c + 1,
                hi as int,
            ));
            (copy_range(line, ks, ke), copy_range(line, ps, pe))
        },
        None => {
            let (ks, ke) = trimmed(line, a, hi);
            (copy_range(line, ks, ke), Vec::new())
        },
    };
    assert(path@ == match first_index(rest, ':') {
        Some(c) => trim(rest.subrange(c + 1, rest.len() as int)),
        None => Seq::<char>::empty(),
    });
    let add = chars_of("Add File");
    let update = chars_of("Update File");
    let delete = chars_of("Delete File");
    if chars_eq(&kind, &add) || chars_eq(&kind, &update) || chars_eq(&kind, &delete) {
        Some((kind, path))
    } else {
        None
    }
}

/// Whether a line is a directive.
fn is_directive_line(line: &Vec<char>) -> (b: bool)
    ensures
        b == is_directive(line@),
{
    let e = trim_end_at(line, 0, line.len());
    assert(line@.subrange(0, line@.len() as int) =~= line@);
    let (s, t) = trimmed(line, 0, e);
    let end = chars_of("*** End Patch");
    if range_eq(line, s, t, &end) {
        return true;
    }
    directive_at(line, e).is_some()
}

/// The first directive at or after `i`.
fn block_end_at(ls: &Vec<Vec<char>>, i: usize) -> (j: usize)
    requires
        i <= ls@.len(),
    ensures
        j == block_end(views(ls@), i as int),
        i <= j <= ls@.len(),
{
    let mut j = i;
    while j < ls.len() && !is_directive_line(&ls[j])
        invariant
            i <= j <= ls@.len(),
            block_end(views(ls@), j as int) == block_end(views(ls@), i as int),
        decreases ls@.len() - j,
    {
        j = j + 1;
    }
    j
}

/// Strings of the given character vectors.
fn strings_of(ls: &Vec<Vec<char>>) -> (out: Vec<String>)
    ensures
        string_views(out@) == views(ls@),
{
    let mut out: Vec<String> = Vec::new();
    let mut i: usize = 0;
    while i < ls.len()
        invariant
            i <= ls@.len(),
            string_views(out@) == views(ls@).subrange(0, i as int),
        decreases ls@.len() - i,
    {
        let ghost o0 = out@;
        let st = string_of(&ls[i]);
        out.push(st);
        assert(out@ == o0.push(st));
        assert(string_views(out@) =~= string_views(o0).push(ls@[i as int]@));
        i = i + 1;
        assert(views(ls@).subrange(0, i as int) =~= views(ls@).subrange(0, i - 1).push(
            ls@[i - 1]@,
        ));
    }
    assert(views(ls@).subrange(0, ls@.len() as int) =~= views(ls@));
    out
}

/// The body of an added file, `ls[i..j]`: `None` when a line does not start with `+`.
fn add_body(ls: &Vec<Vec<char>>, i: usize, j: usize) -> (r: Option<Vec<char>>)
    requires
        i <= j <= ls@.len(),
    ensures
        match r {
            Some(c) => add_body_ok(views(ls@), i as int, j as int) && c@ == add_content(
                views(ls@),
                i as int,
                j as int,
            ),
            None => !add_body_ok(views(ls@), i as int, j as int),
        },
{
    let ghost vs = views(ls@);
    let mut body: Vec<Vec<char>> = Vec::new();
    let mut k = i;
    while k < j
        invariant
            i <= k <= j <= ls@.len(),
            vs == views(ls@),
            add_body_ok(vs, i as int, k as int),
            views(body@) == Seq::new((k - i) as nat, |m: int| vs[i + m].drop_first()),
        decreases j - k,
    {
        let line = &ls[k];
        if line.len() == 0 || line[0] != '+' {
            assert(!starts_with_char(vs[k as int], '+'));
            return None;
        }
        let rest = copy_range(line, 1, line.len());
        assert(rest@ =~= vs[k as int].drop_first());
        let ghost b0 = body@;
        body.push(rest);
        assert(body@ == b0.push(rest));
        assert(views(body@) =~= views(b0).push(rest@));
        k = k + 1;
        assert(views(body@) =~= Seq::new((k - i) as nat, |m: int| vs[i + m].drop_first()));
    }
    Some(join_lines_exec(&body))
}

/// The hunks of an update's lines `ls[i..j]`.
fn hunks_at(ls: &Vec<Vec<char>>, i: usize, j: usize) -> (r: Result<Vec<Hunk>, PatchError>)
    requires
        i <= j <= ls@.len(),
    ensures
        match r {
            Ok(hs) => hunks_from(views(ls@), i as int, j as int, empty_acc()) == Ok::<
                Seq<HunkView>,
                PatchErrorView,
            >(hunk_views(hs@)),
            Err(e) => hunks_from(views(ls@), i as int, j as int, empty_acc()) == Err::<
                Seq<HunkView>,
                PatchErrorView,
            >(e@),
        },
{
    let ghost vs = views(ls@);
    let marker = chars_of("@@");
    let mut hunks: Vec<Hunk> = Vec::new();
    let mut old: Vec<Vec<char>> = Vec::new();
    let mut new: Vec<Vec<char>> = Vec::new();
    let mut open = false;
    let mut k = i;
    assert(hunk_views(hunks@) =~= Seq::<HunkView>::empty());
    assert(views(old@) =~= Seq::<Seq<char>>::empty());
    assert(views(new@) =~= Seq::<Seq<char>>::empty());
    while k < j
        invariant
            i <= k <= j <= ls@.len(),
            vs == views(ls@),
            marker@ == hunk_marker(),
            hunks_from(vs, k as int, j as int, HunkAcc {
                hunks: hunk_views(hunks@),
                old: views(old@),
                new: views(new@),
                open,
            }) == hunks_from(vs, i as int, j as int, empty_acc()),
        decreases j - k,
    {
        let line = &ls[k];
        let e = trim_end_at(line, 0, line.len());
        let ghost t = trim_end(vs[k as int]);
        assert(line@.subrange(0, line@.len() as int) =~= line@);
        assert(line@.subrange(0, e as int) == t);
        if range_starts_with(line, 0, e, &marker) {
            if open {
                if old.len() == 0 {
                    return Err(PatchError::HunkWithoutLocation);
                }
                let hunk = Hunk { old: strings_of(&old), new: strings_of(&new) };
                let ghost hs0 = hunk_views(hunks@);
                hunks.push(hunk);
                assert(hunk_views(hunks@) =~= hs0.push(hunk@));
            }
            old = Vec::new();
            new = Vec::new();
            open = true;
            assert(views(old@) =~= Seq::<Seq<char>>::empty());
            assert(views(new@) =~= Seq::<Seq<char>>::empty());
        } else if e > 0 && line[0] == '+' {
            let ghost n0 = views(new@);
            let piece = copy_range(line, 1, e);
            assert(piece@ =~= t.drop_first());
            let ghost raw0 = new@;
            new.push(piece);
            assert(new@ == raw0.push(piece));
            open = true;
            assert(views(new@) =~= n0.push(t.drop_first()));
        } else if e > 0 && line[0] == '-' {
            let ghost o0 = views(old@);
            let piece = copy_range(line, 1, e);
            assert(piece@ =~= t.drop_first());
            let ghost raw0 = old@;
            old.push(piece);
            assert(old@ == raw0.push(piece));
            open = true;
            assert(views(old@) =~= o0.push(t.drop_first()));
        } else if e > 0 && line[0] == ' ' {
            let ghost o0 = views(old@);
            let ghost n0 = views(new@);
            let piece = copy_range(line, 1, e);
            let piece2 = copy_range(line, 1, e);
            assert(piece@ =~= t.drop_first());
            let ghost ro = old@;
            let ghost rn = new@;
            old.push(piece);
            new.push(piece2);
            assert(old@ == ro.push(piece));
            assert(new@ == rn.push(piece2));
            open = true;
            assert(views(old@) =~= o0.push(t.drop_first()));
            assert(views(new@) =~= n0.push(t.drop_first()));
        } else if e == 0 {
            let ghost o0 = views(old@);
            let ghost n0 = views(new@);
            let ghost ro = old@;
            let ghost rn = new@;
            let p1: Vec<char> = Vec::new();
            let p2: Vec<char> = Vec::new();
            old.push(p1);
            new.push(p2);
            assert(old@ == ro.push(p1));
            assert(new@ == rn.push(p2));
            open = true;
            assert(views(old@) =~= o0.push(Seq::<char>::empty()));
            assert(views(new@) =~= n0.push(Seq::<char>::empty()));
        } else {
            let text = string_of(&copy_range(line, 0, e));
            return Err(PatchError::HunkLineWithoutMarker { line: k + 1, text });
        }
        k = k + 1;
    }
    if open {
        if old.len() == 0 {
            return Err(PatchError::HunkWithoutLocation);
        }
        let hunk = Hunk { old: strings_of(&old), new: strings_of(&new) };
        let ghost hs0 = hunk_views(hunks@);
        hunks.push(hunk);
        assert(hunk_views(hunks@) =~= hs0.push(hunk@));
    }
    Ok(hunks)
}

/// The line that reads `*** Begin Patch`, trimmed.
fn begin_at(ls: &Vec<Vec<char>>) -> (r: Option<usize>)
    ensures
        match r {
            Some(b) => b < ls@.len() && find_begin(views(ls@), 0) == Some(b as int),
            None => find_begin(views(ls@), 0) is None,
        },
{
    let ghost vs = views(ls@);
    let begin = chars_of("*** Begin Patch");
    let mut b: usize = 0;
    while b < ls.len()
        invariant
            b <= ls@.len(),
            vs == views(ls@),
            begin@ == begin_marker(),
            find_begin(vs, b as int) == find_begin(vs, 0),
        decreases ls@.len() - b,
    {
        let (s, e) = trimmed(&ls[b], 0, ls[b].len());
        assert(ls@[b as int]@.subrange(0, ls@[b as int]@.len() as int) =~= ls@[b as int]@);
        if range_eq(&ls[b], s, e, &begin) {
            return Some(b);
        }
        b = b + 1;
    }
    None
}

/// Read a patch into its changes, or say on which line and why it cannot be read.
pub fn parse(text: &str) -> (r: Result<Vec<Change>, PatchError>)
    ensures
        parse_result_view(r) == parse_spec(text@),
{
    let ls = lines(text);
    let ghost vs = views(ls@);
    let b = match begin_at(&ls) {
        None => {
            return Err(PatchError::NoBegin);
        },
        Some(b) => b,
    };
    let end = chars_of("*** End Patch");
    let add = chars_of("Add File");
    let delete = chars_of("Delete File");
    let mut changes: Vec<Change> = Vec::new();
    let mut i = b + 1;
    assert(change_views(changes@) =~= Seq::<ChangeView>::empty());
    loop
        invariant
            b < ls@.len(),
            b + 1 <= i <= ls@.len(),
            vs == views(ls@),
            vs == lines_of(text@),
            find_begin(vs, 0) == Some(b as int),
            end@ == end_marker(),
            add@ == add_kind(),
            delete@ == delete_kind(),
            changes_from(vs, i as int, change_views(changes@)) == changes_from(
                vs,
                b + 1,
                seq![],
            ),
        decreases ls@.len() - i,
    {
        if i >= ls.len() {
            return Err(PatchError::NoEnd);
        }
        let line = &ls[i];
        let e = trim_end_at(line, 0, line.len());
        assert(line@.subrange(0, line@.len() as int) =~= line@);
        let (s, t) = trimmed(line, 0, e);
        if range_eq(line, s, t, &end) {
            if changes.len() == 0 {
                return Err(PatchError::Empty);
            }
            return Ok(changes);
        }
        let (kind, path) = match directive_at(line, e) {
            None => {
                let text = string_of(&copy_range(line, 0, e));
                return Err(PatchError::NotADirective { line: i + 1, text });
            },
            Some(d) => d,
        };
        if path.len() == 0 {
            return Err(PatchError::NoPath { line: i + 1, kind: string_of(&kind) });
        }
        proof {
            lemma_block_end_bounds(vs, i + 1);
        }
        let ghost cv0 = change_views(changes@);
        if chars_eq(&kind, &add) {
            let j = block_end_at(&ls, i + 1);
            match add_body(&ls, i + 1, j) {
                None => {
                    return Err(PatchError::AddLineWithoutPlus { line: i + 1 });
                },
                Some(content) => {
                    let c = Change::Add { path: string_of(&path), content: string_of(&content) };
                    changes.push(c);
                    assert(change_views(changes@) =~= cv0.push(c@));
                    i = j;
                },
            }
        } else if chars_eq(&kind, &delete) {
            let c = Change::Delete { path: string_of(&path) };
            changes.push(c);
            assert(change_views(changes@) =~= cv0.push(c@));
            i = i + 1;
        } else {
            let j = block_end_at(&ls, i + 1);
            let hunks = match hunks_at(&ls, i + 1, j) {
                Err(err) => {
                    return Err(err);
                },
                Ok(h) => h,
            };
            if hunks.len() == 0 {
                return Err(PatchError::UpdateWithoutChanges { path: string_of(&path) });
            }
            let c = Change::Update { path: string_of(&path), hunks };
            changes.push(c);
            assert(change_views(changes@) =~= cv0.push(c@));
            i = j;
        }
    }
}

// =======================================================================================
// Applying a change
// =======================================================================================

/// A file's lines for matching: split on `\n`, one final `\n` ignored, and nothing at all
/// for an empty file.
pub open spec fn file_lines(s: Seq<char>) -> Seq<Seq<char>> {
    let t = if s.len() > 0 && s.last() == '\n' {
        s.drop_last()
    } else {
        s
    };
    if t.len() == 0 {
        Seq::<Seq<char>>::empty()
    } else {
        split_on(t, '\n')
    }
}

/// The old lines stand at position `s` of the file.
pub open spec fn matches_at(whole: Seq<Seq<char>>, old: Seq<Seq<char>>, s: int) -> bool {
    whole.subrange(s, s + old.len()) == old
}

/// The positions below `n` where the old lines stand, in increasing order.
pub open spec fn positions(whole: Seq<Seq<char>>, old: Seq<Seq<char>>, n: int) -> Seq<int>
    decreases n,
{
    if n <= 0 {
        Seq::<int>::empty()
    } else if matches_at(whole, old, n - 1) {
        positions(whole, old, n - 1).push(n - 1)
    } else {
        positions(whole, old, n - 1)
    }
}

/// Every position where the old lines stand in the file.
pub open spec fn candidates(whole: Seq<Seq<char>>, old: Seq<Seq<char>>) -> Seq<int> {
    if old.len() <= whole.len() {
        positions(whole, old, whole.len() - old.len() + 1)
    } else {
        Seq::<int>::empty()
    }
}

pub ghost enum HunkMiss {
    NotFound,
    Ambiguous(nat),
}

/// One hunk applied to a text: its old lines replaced by its new ones, when they stand in
/// the text exactly once.
pub open spec fn apply_hunk_spec(text: Seq<char>, h: HunkView) -> Result<Seq<char>, HunkMiss> {
    let whole = file_lines(text);
    let found = candidates(whole, h.old);
    if found.len() == 0 {
        Err(HunkMiss::NotFound)
    } else if found.len() > 1 {
        Err(HunkMiss::Ambiguous(found.len()))
    } else {
        let s = found[0];
        Ok(
            join_lines(
                whole.subrange(0, s) + h.new + whole.subrange(s + h.old.len(), whole.len() as int),
            ),
        )
    }
}

/// The hunks from the `i`-th on, applied in order; a miss names the hunk (counted from 1)
/// and the file.
pub open spec fn apply_hunks_from(text: Seq<char>, hunks: Seq<HunkView>, i: int, path: Seq<char>) -> Result<
    Seq<char>,
    PatchErrorView,
>
    decreases hunks.len() - i,
{
    if i >= hunks.len() || i < 0 {
        Ok(text)
    } else {
        match apply_hunk_spec(text, hunks[i]) {
            Ok(t) => apply_hunks_from(t, hunks, i + 1, path),
            Err(HunkMiss::NotFound) => Err(PatchErrorView::NotInFile { hunk: (i + 1) as nat, path }),
            Err(HunkMiss::Ambiguous(n)) => Err(
                PatchErrorView::Ambiguous { times: n, hunk: (i + 1) as nat, path },
            ),
        }
    }
}

/// What one change makes of a file's contents (`None`: the file is not there, or is to be
/// deleted).
pub open spec fn apply_spec(c: ChangeView, path: Seq<char>, current: Option<Seq<char>>) -> Result<
    Option<Seq<char>>,
    PatchErrorView,
> {
    match c {
        ChangeView::Add { content, .. } => if current is Some {
            Err(PatchErrorView::AlreadyExists { path })
        } else {
            Ok(Some(content))
        },
        ChangeView::Delete { .. } => if current is None {
            Err(PatchErrorView::DeleteMissing { path })
        } else {
            Ok(None)
        },
        ChangeView::Update { hunks, .. } => match current {
            None => Err(PatchErrorView::UpdateMissing { path }),
            Some(text) => match apply_hunks_from(text, hunks, 0, path) {
                Ok(t) => Ok(Some(t)),
                Err(e) => Err(e),
            },
        },
    }
}

pub open spec fn opt_view(o: Option<&str>) -> Option<Seq<char>> {
    match o {
        Some(s) => Some(s@),
        None => None,
    }
}

pub open spec fn apply_result_view(r: Result<Option<String>, PatchError>) -> Result<
    Option<Seq<char>>,
    PatchErrorView,
> {
    match r {
        Ok(Some(s)) => Ok(Some(s@)),
        Ok(None) => Ok(None),
        Err(e) => Err(e@),
    }
}

/// The lines of a file's text, for matching.
fn file_lines_exec(text: &Vec<char>) -> (out: Vec<Vec<char>>)
    ensures
        views(out@) == file_lines(text@),
{
    let mut n = text.len();
    if n > 0 && text[n - 1] == '\n' {
        n = n - 1;
    }
    let ghost t = if text@.len() > 0 && text@.last() == '\n' {
        text@.drop_last()
    } else {
        text@
    };
    assert(text@.subrange(0, n as int) =~= t);
    if n == 0 {
        let out: Vec<Vec<char>> = Vec::new();
        assert(views(out@) =~= Seq::<Seq<char>>::empty());
        return out;
    }
    split_chars(text, 0, n, '\n')
}

/// The characters of each string.
pub(crate) fn chars_of_all(v: &Vec<String>) -> (out: Vec<Vec<char>>)
    ensures
        views(out@) == string_views(v@),
{
    let mut out: Vec<Vec<char>> = Vec::new();
    let mut i: usize = 0;
    while i < v.len()
        invariant
            i <= v@.len(),
            views(out@) == string_views(v@).subrange(0, i as int),
        decreases v@.len() - i,
    {
        let ghost o0 = out@;
        let c = chars_of(v[i].as_str());
        out.push(c);
        assert(out@ == o0.push(c));
        assert(views(out@) =~= views(o0).push(v@[i as int]@));
        i = i + 1;
        assert(string_views(v@).subrange(0, i as int) =~= string_views(v@).subrange(
            0,
            i - 1,
        ).push(v@[i - 1]@));
    }
    assert(string_views(v@).subrange(0, v@.len() as int) =~= string_views(v@));
    out
}

/// Whether `old` stands in `whole` at `s`.
fn lines_match(whole: &Vec<Vec<char>>, old: &Vec<Vec<char>>, s: usize) -> (b: bool)
    requires
        s + old@.len() <= whole@.len(),
    ensures
        b == matches_at(views(whole@), views(old@), s as int),
{
    let wl = whole.len();
    let mut l: usize = 0;
    while l < old.len()
        invariant
            wl == whole@.len(),
            s + old@.len() <= whole@.len(),
            l <= old@.len(),
            forall|m: int| 0 <= m < l ==> whole@[s + m]@ == old@[m]@,
        decreases old@.len() - l,
    {
        assert(s + l < whole@.len());
        if !chars_eq(&whole[s + l], &old[l]) {
            assert(views(whole@).subrange(s as int, s + old@.len())[l as int] != views(
                old@,
            )[l as int]);
            return false;
        }
        l = l + 1;
    }
    assert(views(whole@).subrange(s as int, s + old@.len()) =~= views(old@));
    true
}

/// `v[lo..hi]` followed by nothing else, appended to `out`.
fn extend_lines(out: &mut Vec<Vec<char>>, v: &Vec<Vec<char>>, lo: usize, hi: usize)
    requires
        lo <= hi <= v@.len(),
    ensures
        views(final(out)@) == views(old(out)@) + views(v@).subrange(lo as int, hi as int),
{
    let ghost start = views(out@);
    let mut i = lo;
    while i < hi
        invariant
            lo <= i <= hi <= v@.len(),
            views(out@) == start + views(v@).subrange(lo as int, i as int),
        decreases hi - i,
    {
        let ghost o0 = out@;
        let c = crate::text::copy_range(&v[i], 0, v[i].len());
        assert(c@ =~= v@[i as int]@);
        out.push(c);
        assert(out@ == o0.push(c));
        assert(views(out@) =~= views(o0).push(c@));
        i = i + 1;
        assert(views(out@) =~= start + views(v@).subrange(lo as int, i as int));
    }
}

/// One hunk applied to a text. `Err(0)`: the old lines are not there; `Err(n)`: they are
/// there `n` times.
fn apply_hunk(text: &Vec<char>, hunk: &Hunk) -> (r: Result<Vec<char>, usize>)
    ensures
        match r {
            Ok(t) => apply_hunk_spec(text@, hunk@) == Ok::<Seq<char>, HunkMiss>(t@),
            Err(n) => if n == 0 {
                apply_hunk_spec(text@, hunk@) == Err::<Seq<char>, HunkMiss>(HunkMiss::NotFound)
            } else {
                n > 1 && apply_hunk_spec(text@, hunk@) == Err::<Seq<char>, HunkMiss>(
                    HunkMiss::Ambiguous(n as nat),
                )
            },
        },
{
    let whole = file_lines_exec(text);
    let old = chars_of_all(&hunk.old);
    let new = chars_of_all(&hunk.new);
    let ghost vw = views(whole@);
    let ghost vo = views(old@);
    let mut found: Vec<usize> = Vec::new();
    if old.len() <= whole.len() {
        let last = whole.len() - old.len();
        let mut start: usize = 0;
        let mut more = true;
        assert(found@.map_values(|x: usize| x as int) =~= positions(vw, vo, 0));
        while more
            invariant
                old@.len() <= whole@.len(),
                last == whole@.len() - old@.len(),
                start <= last,
                vw == views(whole@),
                vo == views(old@),
                more ==> found@.map_values(|x: usize| x as int) == positions(vw, vo, start as int),
                !more ==> found@.map_values(|x: usize| x as int) == positions(
                    vw,
                    vo,
                    last + 1,
                ),
            decreases last - start + (if more { 1int } else { 0int }),
        {
            let ghost f0 = found@;
            if lines_match(&whole, &old, start) {
                found.push(start);
                assert(found@ == f0.push(start));
                assert(found@.map_values(|x: usize| x as int) =~= f0.map_values(
                    |x: usize| x as int,
                ).push(start as int));
            }
            if start == last {
                more = false;
            } else {
                start = start + 1;
            }
        }
    } else {
        assert(found@.map_values(|x: usize| x as int) =~= Seq::<int>::empty());
    }
    let ghost fv = found@.map_values(|x: usize| x as int);
    assert(fv == candidates(vw, vo));
    if found.len() != 1 {
        return Err(found.len());
    }
    let s = found[0];
    assert(fv[0] == s as int);
    proof {
        lemma_positions_match(vw, vo, whole@.len() - old@.len() + 1, 0);
    }
    assert(s + old@.len() <= whole@.len());
    let mut out: Vec<Vec<char>> = Vec::new();
    assert(views(out@) =~= Seq::<Seq<char>>::empty());
    extend_lines(&mut out, &whole, 0, s);
    extend_lines(&mut out, &new, 0, new.len());
    extend_lines(&mut out, &whole, s + old.len(), whole.len());
    assert(views(new@).subrange(0, new@.len() as int) =~= views(new@));
    Ok(join_lines_exec(&out))
}

proof fn lemma_positions_match(whole: Seq<Seq<char>>, old: Seq<Seq<char>>, n: int, k: int)
    requires
        0 <= k < positions(whole, old, n).len(),
    ensures
        matches_at(whole, old, positions(whole, old, n)[k]),
        0 <= positions(whole, old, n)[k] < n,
    decreases n,
{
    if n > 0 {
        if matches_at(whole, old, n - 1) {
            if k < positions(whole, old, n - 1).len() {
                lemma_positions_match(whole, old, n - 1, k);
            }
        } else {
            lemma_positions_match(whole, old, n - 1, k);
        }
    }
}

/// Apply one file's change to what the file holds now (`None` when it is not there).
///
/// Returns the contents the file should have, or `None` for a deletion.
pub fn apply_to(change: &Change, path: &str, current: Option<&str>) -> (r: Result<
    Option<String>,
    PatchError,
>)
    ensures
        apply_result_view(r) == apply_spec(change@, path@, opt_view(current)),
{
    match change {
        Change::Add { content, .. } => {
            if current.is_some() {
                return Err(PatchError::AlreadyExists { path: path.to_string() });
            }
            Ok(Some(content.clone()))
        },
        Change::Delete { .. } => {
            if current.is_none() {
                return Err(PatchError::DeleteMissing { path: path.to_string() });
            }
            Ok(None)
        },
        Change::Update { hunks, .. } => {
            let cur = match current {
                None => {
                    return Err(PatchError::UpdateMissing { path: path.to_string() });
                },
                Some(c) => c,
            };
            let ghost hv = hunk_views(hunks@);
            let mut text = chars_of(cur);
            let mut index: usize = 0;
            let ghost whole_result = apply_spec(change@, path@, opt_view(current));
            assert(whole_result == match apply_hunks_from(cur@, hv, 0, path@) {
                Ok(t) => Ok(Some(t)),
                Err(e) => Err(e),
            });
            while index < hunks.len()
                invariant
                    index <= hunks@.len(),
                    whole_result == apply_spec(change@, path@, opt_view(current)),
                    whole_result == match apply_hunks_from(cur@, hv, 0, path@) {
                        Ok(t) => Ok(Some(t)),
                        Err(e) => Err(e),
                    },
                    hv == hunk_views(hunks@),
                    apply_hunks_from(text@, hv, index as int, path@) == apply_hunks_from(
                        cur@,
                        hv,
                        0,
                        path@,
                    ),
                decreases hunks@.len() - index,
            {
                assert(hv[index as int] == hunks@[index as int]@);
                match apply_hunk(&text, &hunks[index]) {
                    Ok(t) => {
                        text = t;
                    },
                    Err(n) => {
                        if n == 0 {
                            return Err(
                                PatchError::NotInFile { hunk: index + 1, path: path.to_string() },
                            );
                        } else {
                            return Err(
                                PatchError::Ambiguous {
                                    times: n,
                                    hunk: index + 1,
                                    path: path.to_string(),
                                },
                            );
                        }
                    },
                }
                index = index + 1;
            }
            Ok(Some(string_of(&text)))
        },
    }
}

// =======================================================================================
// Names and messages
// =======================================================================================

impl ChangeView {
    pub open spec fn path(self) -> Seq<char> {
        match self {
            ChangeView::Add { path, .. } => path,
            ChangeView::Update { path, .. } => path,
            ChangeView::Delete { path } => path,
        }
    }

    pub open spec fn verb(self) -> Seq<char> {
        match self {
            ChangeView::Add { .. } => "add"@,
            ChangeView::Update { .. } => "update"@,
            ChangeView::Delete { .. } => "delete"@,
        }
    }
}

impl Change {
    /// The file this change is about.
    pub fn path(&self) -> (p: &str)
        ensures
            p@ == self@.path(),
    {
        match self {
            Change::Add { path, .. } => path.as_str(),
            Change::Update { path, .. } => path.as_str(),
            Change::Delete { path } => path.as_str(),
        }
    }

    /// What to call this in a summary line: `add`, `update`, `delete`.
    pub fn verb(&self) -> (v: &'static str)
        ensures
            v@ == self@.verb(),
    {
        match self {
            Change::Add { .. } => "add",
            Change::Update { .. } => "update",
            Change::Delete { .. } => "delete",
        }
    }
}

/// `line {n}: `, the start of a message about one line.
pub open spec fn at_line(n: nat) -> Seq<char> {
    "line "@ + decimal(n) + ": "@
}

/// ` (hunk {k} of {path})`, the end of a message about one hunk.
pub open spec fn of_hunk(k: nat, path: Seq<char>) -> Seq<char> {
    " (hunk "@ + decimal(k) + " of "@ + path + ")"@
}

/// What a person (or a model) is told about a patch that could not be used.
pub open spec fn message_of(e: PatchErrorView) -> Seq<char> {
    match e {
        PatchErrorView::NoBegin => "patch must start with a line reading `*** Begin Patch`"@,
        PatchErrorView::NoEnd => "patch must end with a line reading `*** End Patch`"@,
        PatchErrorView::Empty =>
            "the patch is empty: it has a start and an end but no files in between"@,
        PatchErrorView::NotADirective { line, text } => at_line(line)
            + "expected `*** Add File:`, `*** Update File:`, `*** Delete File:` or `*** End Patch`, found: "@
            + text,
        PatchErrorView::NoPath { line, kind } => at_line(line) + "`"@ + kind
            + "` needs a file path"@,
        PatchErrorView::AddLineWithoutPlus { line } => at_line(line)
            + "every line of an added file must start with `+`"@,
        PatchErrorView::UpdateWithoutChanges { path } => "`Update File: "@ + path
            + "` has no changes"@,
        PatchErrorView::HunkWithoutLocation =>
            "a hunk has no context and nothing to remove, so it has no location"@,
        PatchErrorView::HunkLineWithoutMarker { line, text } => at_line(line)
            + "every line inside a hunk must start with `+`, `-` or a space, found: "@ + text,
        PatchErrorView::AlreadyExists { path } => "cannot add "@ + path
            + ": the file already exists. Use `*** Update File:` to change it"@,
        PatchErrorView::DeleteMissing { path } => "cannot delete "@ + path
            + ": the file does not exist"@,
        PatchErrorView::UpdateMissing { path } => "cannot update "@ + path
            + ": the file does not exist"@,
        PatchErrorView::NotInFile { hunk, path } =>
            "the text to replace is not in the file. Read the file and write the patch against what is actually there"@
            + of_hunk(hunk, path),
        PatchErrorView::Ambiguous { times, hunk, path } => "the text to replace appears "@
            + decimal(times) + " times; include more surrounding lines to say which one"@
            + of_hunk(hunk, path),
    }
}

fn push_line_prefix(out: &mut Vec<char>, n: usize)
    ensures
        final(out)@ == old(out)@ + at_line(n as nat),
{
    let ghost o = out@;
    extend_str(out, "line ");
    let d = decimal_chars(n as u64);
    extend_chars(out, &d);
    extend_str(out, ": ");
    assert(out@ =~= o + at_line(n as nat));
}

fn push_hunk_suffix(out: &mut Vec<char>, k: usize, path: &String)
    ensures
        final(out)@ == old(out)@ + of_hunk(k as nat, path@),
{
    let ghost o = out@;
    extend_str(out, " (hunk ");
    let d = decimal_chars(k as u64);
    extend_chars(out, &d);
    extend_str(out, " of ");
    extend_str(out, path.as_str());
    extend_str(out, ")");
    assert(out@ =~= o + of_hunk(k as nat, path@));
}

impl PatchError {
    /// The sentence for this error.
    pub fn message(&self) -> (m: String)
        ensures
            m@ == message_of(self@),
    {
        let mut out: Vec<char> = Vec::new();
        match self {
            PatchError::NoBegin => {
                extend_str(&mut out, "patch must start with a line reading `*** Begin Patch`");
            },
            PatchError::NoEnd => {
                extend_str(&mut out, "patch must end with a line reading `*** End Patch`");
            },
            PatchError::Empty => {
                extend_str(
                    &mut out,
                    "the patch is empty: it has a start and an end but no files in between",
                );
            },
            PatchError::NotADirective { line, text } => {
                push_line_prefix(&mut out, *line);
                extend_str(
                    &mut out,
                    "expected `*** Add File:`, `*** Update File:`, `*** Delete File:` or `*** End Patch`, found: ",
                );
                extend_str(&mut out, text.as_str());
            },
            PatchError::NoPath { line, kind } => {
                push_line_prefix(&mut out, *line);
                extend_str(&mut out, "`");
                extend_str(&mut out, kind.as_str());
                extend_str(&mut out, "` needs a file path");
            },
            PatchError::AddLineWithoutPlus { line } => {
                push_line_prefix(&mut out, *line);
                extend_str(&mut out, "every line of an added file must start with `+`");
            },
            PatchError::UpdateWithoutChanges { path } => {
                extend_str(&mut out, "`Update File: ");
                extend_str(&mut out, path.as_str());
                extend_str(&mut out, "` has no changes");
            },
            PatchError::HunkWithoutLocation => {
                extend_str(
                    &mut out,
                    "a hunk has no context and nothing to remove, so it has no location",
                );
            },
            PatchError::HunkLineWithoutMarker { line, text } => {
                push_line_prefix(&mut out, *line);
                extend_str(
                    &mut out,
                    "every line inside a hunk must start with `+`, `-` or a space, found: ",
                );
                extend_str(&mut out, text.as_str());
            },
            PatchError::AlreadyExists { path } => {
                extend_str(&mut out, "cannot add ");
                extend_str(&mut out, path.as_str());
                extend_str(
                    &mut out,
                    ": the file already exists. Use `*** Update File:` to change it",
                );
            },
            PatchError::DeleteMissing { path } => {
                extend_str(&mut out, "cannot delete ");
                extend_str(&mut out, path.as_str());
                extend_str(&mut out, ": the file does not exist");
            },
            PatchError::UpdateMissing { path } => {
                extend_str(&mut out, "cannot update ");
                extend_str(&mut out, path.as_str());
                extend_str(&mut out, ": the file does not exist");
            },
            PatchError::NotInFile { hunk, path } => {
                extend_str(
                    &mut out,
                    "the text to replace is not in the file. Read the file and write the patch against what is actually there",
                );
                push_hunk_suffix(&mut out, *hunk, path);
            },
            PatchError::Ambiguous { times, hunk, path } => {
                extend_str(&mut out, "the text to replace appears ");
                let d = decimal_chars(*times as u64);
                extend_chars(&mut out, &d);
                extend_str(&mut out, " times; include more surrounding lines to say which one");
                push_hunk_suffix(&mut out, *hunk, path);
            },
        }
        assert(out@ =~= message_of(self@));
        string_of(&out)
    }
}

// =======================================================================================
// Laws
// =======================================================================================

/// A missing final newline is not a change to any line: a file without one and the same
/// file with one are matched, and patched, alike.
pub proof fn law_a_final_newline_changes_no_line(text: Seq<char>, h: HunkView)
    requires
        text.len() == 0 || text.last() != '\n',
    ensures
        file_lines(text.push('\n')) == file_lines(text),
        apply_hunk_spec(text.push('\n'), h) == apply_hunk_spec(text, h),
{
    assert(text.push('\n').drop_last() =~= text);
}

proof fn lemma_positions(whole: Seq<Seq<char>>, old: Seq<Seq<char>>, n: int)
    requires
        n >= 0,
    ensures
        forall|k: int| 0 <= k < positions(whole, old, n).len() ==> {
            let p = #[trigger] positions(whole, old, n)[k];
            0 <= p < n && matches_at(whole, old, p)
        },
        forall|p: int| 0 <= p < n && matches_at(whole, old, p) ==> #[trigger] positions(
            whole,
            old,
            n,
        ).contains(p),
        forall|k: int, l: int|
            0 <= k < l < positions(whole, old, n).len() ==> positions(whole, old, n)[k]
                < positions(whole, old, n)[l],
    decreases n,
{
    if n > 0 {
        lemma_positions(whole, old, n - 1);
        let prev = positions(whole, old, n - 1);
        let cur = positions(whole, old, n);
        if matches_at(whole, old, n - 1) {
            assert(cur == prev.push(n - 1));
            assert forall|p: int| 0 <= p < n && matches_at(whole, old, p) implies #[trigger] cur.contains(
                p,
            ) by {
                if p < n - 1 {
                    assert(prev.contains(p));
                    let k = choose|k: int| 0 <= k < prev.len() && prev[k] == p;
                    assert(cur[k] == p);
                } else {
                    assert(cur[prev.len() as int] == p);
                }
            }
        } else {
            assert forall|p: int| 0 <= p < n && matches_at(whole, old, p) implies #[trigger] cur.contains(
                p,
            ) by {
                assert(p < n - 1);
                assert(prev.contains(p));
            }
        }
    }
}

/// Where the old lines of a hunk stand in a file.
pub open spec fn stands_at(whole: Seq<Seq<char>>, old: Seq<Seq<char>>, s: int) -> bool {
    0 <= s && s + old.len() <= whole.len() && matches_at(whole, old, s)
}

/// A hunk is located by its own lines, and never guessed at: it applies exactly when its old
/// lines stand in the file at one place and one place only, and then it replaces them there
/// with its new lines.
pub proof fn law_a_hunk_applies_only_where_it_stands_once(text: Seq<char>, h: HunkView)
    ensures
        apply_hunk_spec(text, h) is Ok <==> exists|s: int|
            stands_at(file_lines(text), h.old, s) && forall|t: int|
                stands_at(file_lines(text), h.old, t) ==> t == s,
        forall|s: int|
            stands_at(file_lines(text), h.old, s) && apply_hunk_spec(text, h) is Ok ==> apply_hunk_spec(
                text,
                h,
            ) == Ok::<Seq<char>, HunkMiss>(
                join_lines(
                    file_lines(text).subrange(0, s) + h.new + file_lines(text).subrange(
                        s + h.old.len(),
                        file_lines(text).len() as int,
                    ),
                ),
            ),
{
    let whole = file_lines(text);
    let old = h.old;
    let found = candidates(whole, old);
    if old.len() <= whole.len() {
        let n = whole.len() - old.len() + 1;
        lemma_positions(whole, old, n);
        assert forall|t: int| stands_at(whole, old, t) implies found.contains(t) by {
            assert(0 <= t < n);
        }
        if found.len() == 1 {
            let s = found[0];
            assert(stands_at(whole, old, s));
            assert forall|t: int| stands_at(whole, old, t) implies t == s by {
                assert(found.contains(t));
            }
        } else if found.len() > 1 {
            assert(found[0] < found[1]);
            assert(stands_at(whole, old, found[0]));
            assert(stands_at(whole, old, found[1]));
        } else {
            assert forall|t: int| !stands_at(whole, old, t) by {
                if stands_at(whole, old, t) {
                    assert(found.contains(t));
                }
            }
        }
    } else {
        assert forall|t: int| !stands_at(whole, old, t) by {}
    }
}

// =======================================================================================
// Lines before the patch
// =======================================================================================

/// A refusal `n` lines further down: the line it names moves by `n`, nothing else changes.
pub open spec fn shifted(e: PatchErrorView, n: nat) -> PatchErrorView {
    match e {
        PatchErrorView::NotADirective { line, text } => PatchErrorView::NotADirective {
            line: line + n,
            text,
        },
        PatchErrorView::NoPath { line, kind } => PatchErrorView::NoPath { line: line + n, kind },
        PatchErrorView::AddLineWithoutPlus { line } => PatchErrorView::AddLineWithoutPlus {
            line: line + n,
        },
        PatchErrorView::HunkLineWithoutMarker { line, text } =>
            PatchErrorView::HunkLineWithoutMarker { line: line + n, text },
        _ => e,
    }
}

/// A reading `n` lines further down.
pub open spec fn shifted_result<T>(r: Result<T, PatchErrorView>, n: nat) -> Result<
    T,
    PatchErrorView,
> {
    match r {
        Ok(x) => Ok(x),
        Err(e) => Err(shifted(e, n)),
    }
}

/// What the lines of a patch text say (`parse_spec` reads the lines of its text this way).
pub open spec fn read_lines(ls: Seq<Seq<char>>) -> Result<Seq<ChangeView>, PatchErrorView> {
    match find_begin(ls, 0) {
        None => Err(PatchErrorView::NoBegin),
        Some(b) => changes_from(ls, b + 1, seq![]),
    }
}

proof fn lemma_block_end_shift(pre: Seq<Seq<char>>, ls: Seq<Seq<char>>, i: int)
    requires
        0 <= i,
    ensures
        block_end(pre + ls, i + pre.len()) == block_end(ls, i) + pre.len(),
    decreases ls.len() - i,
{
    if i < ls.len() {
        assert((pre + ls)[i + pre.len()] == ls[i]);
        lemma_block_end_shift(pre, ls, i + 1);
    }
}

proof fn lemma_hunks_shift(pre: Seq<Seq<char>>, ls: Seq<Seq<char>>, k: int, j: int, a: HunkAcc)
    requires
        0 <= k,
    ensures
        hunks_from(pre + ls, k + pre.len(), j + pre.len(), a) == shifted_result(
            hunks_from(ls, k, j, a),
            pre.len(),
        ),
    decreases j - k,
{
    let n = pre.len();
    if k >= j || k >= ls.len() {
        match flush(a) {
            Ok(_) => {},
            Err(e) => {
                assert(e == PatchErrorView::HunkWithoutLocation);
            },
        }
    } else {
        assert((pre + ls)[k + n] == ls[k]);
        let t = trim_end(ls[k]);
        if starts_with(t, hunk_marker()) {
            match flush(a) {
                Err(e) => {
                    assert(e == PatchErrorView::HunkWithoutLocation);
                },
                Ok(hs) => {
                    lemma_hunks_shift(
                        pre,
                        ls,
                        k + 1,
                        j,
                        HunkAcc { hunks: hs, old: seq![], new: seq![], open: true },
                    );
                },
            }
        } else if starts_with_char(t, '+') {
            lemma_hunks_shift(pre, ls, k + 1, j, HunkAcc { new: a.new.push(t.drop_first()), open: true, ..a });
        } else if starts_with_char(t, '-') {
            lemma_hunks_shift(pre, ls, k + 1, j, HunkAcc { old: a.old.push(t.drop_first()), open: true, ..a });
        } else if starts_with_char(t, ' ') {
            lemma_hunks_shift(
                pre,
                ls,
                k + 1,
                j,
                HunkAcc {
                    old: a.old.push(t.drop_first()),
                    new: a.new.push(t.drop_first()),
                    open: true,
                    ..a
                },
            );
        } else if t.len() == 0 {
            lemma_hunks_shift(
                pre,
                ls,
                k + 1,
                j,
                HunkAcc {
                    old: a.old.push(Seq::<char>::empty()),
                    new: a.new.push(Seq::<char>::empty()),
                    open: true,
                    ..a
                },
            );
        }
    }
}

proof fn lemma_changes_shift(pre: Seq<Seq<char>>, ls: Seq<Seq<char>>, i: int, acc: Seq<ChangeView>)
    requires
        0 <= i,
    ensures
        changes_from(pre + ls, i + pre.len(), acc) == shifted_result(
            changes_from(ls, i, acc),
            pre.len(),
        ),
    decreases ls.len() - i,
{
    let n = pre.len();
    let l2 = pre + ls;
    if i < ls.len() {
        assert(l2[i + n] == ls[i]);
        let line = trim_end(ls[i]);
        if trim(line) != end_marker() {
            match directive_of(line) {
                None => {},
                Some((kind, path)) => {
                    if path.len() > 0 {
                        lemma_block_end_shift(pre, ls, i + 1);
                        lemma_block_end_bounds(ls, i + 1);
                        let j = block_end(ls, i + 1);
                        if kind == add_kind() {
                            assert(add_body_ok(l2, i + 1 + n, j + n) == add_body_ok(ls, i + 1, j)) by {
                                if add_body_ok(ls, i + 1, j) {
                                    assert forall|k: int| i + 1 + n <= k < j + n implies starts_with_char(
                                        #[trigger] l2[k],
                                        '+',
                                    ) by {
                                        assert(l2[k] == ls[k - n]);
                                    }
                                } else {
                                    let k = choose|k: int|
                                        i + 1 <= k < j && !starts_with_char(#[trigger] ls[k], '+');
                                    assert(l2[k + n] == ls[k]);
                                }
                            }
                            assert(add_content(l2, i + 1 + n, j + n) =~= add_content(ls, i + 1, j))
                                by {
                                assert(Seq::new(
                                    ((j + n) - (i + 1 + n)) as nat,
                                    |k: int| l2[i + 1 + n + k].drop_first(),
                                ) =~= Seq::new((j - (i + 1)) as nat, |k: int| ls[i + 1 + k].drop_first()))
                                    by {
                                    assert forall|k: int| 0 <= k < j - (i + 1) implies #[trigger] l2[i
                                        + 1 + n + k] == ls[i + 1 + k] by {}
                                }
                            }
                            if add_body_ok(ls, i + 1, j) {
                                lemma_changes_shift(
                                    pre,
                                    ls,
                                    j,
                                    acc.push(ChangeView::Add { path, content: add_content(ls, i + 1, j) }),
                                );
                            }
                        } else if kind == delete_kind() {
                            lemma_changes_shift(pre, ls, i + 1, acc.push(ChangeView::Delete { path }));
                        } else {
                            lemma_hunks_shift(pre, ls, i + 1, j, empty_acc());
                            match hunks_from(ls, i + 1, j, empty_acc()) {
                                Err(e) => {},
                                Ok(hs) => if hs.len() > 0 {
                                    lemma_changes_shift(
                                        pre,
                                        ls,
                                        j,
                                        acc.push(ChangeView::Update { path, hunks: hs }),
                                    );
                                },
                            }
                        }
                    }
                },
            }
        }
    }
}

proof fn lemma_begin_shift(pre: Seq<Seq<char>>, ls: Seq<Seq<char>>, i: int)
    requires
        0 <= i <= pre.len(),
        forall|k: int| 0 <= k < pre.len() ==> trim(#[trigger] pre[k]) != begin_marker(),
    ensures
        find_begin(pre + ls, i) == match find_begin(ls, 0) {
            Some(b) => Some(b + pre.len()),
            None => None::<int>,
        },
    decreases pre.len() + ls.len() - i,
{
    let l2 = pre + ls;
    if i < pre.len() {
        assert(l2[i] == pre[i]);
        lemma_begin_shift(pre, ls, i + 1);
    } else {
        lemma_find_begin_shift(pre, ls, i - pre.len());
    }
}

proof fn lemma_find_begin_shift(pre: Seq<Seq<char>>, ls: Seq<Seq<char>>, i: int)
    requires
        0 <= i,
    ensures
        find_begin(pre + ls, i + pre.len()) == match find_begin(ls, i) {
            Some(b) => Some(b + pre.len()),
            None => None::<int>,
        },
    decreases ls.len() - i,
{
    if i < ls.len() {
        assert((pre + ls)[i + pre.len()] == ls[i]);
        lemma_find_begin_shift(pre, ls, i + 1);
    }
}

proof fn lemma_find_begin_after(ls: Seq<Seq<char>>, i: int)
    requires
        0 <= i,
    ensures
        find_begin(ls, i) matches Some(b) ==> i <= b,
    decreases ls.len() - i,
{
    if i < ls.len() {
        lemma_find_begin_after(ls, i + 1);
    }
}

/// Text before `*** Begin Patch` is ignored: for a text whose lines are some lines, none of
/// them the begin marker, followed by the lines of a patch, what the text says is what those
/// patch lines say; a refusal names the same line, counted from the top of the whole text.
pub proof fn law_lines_before_the_patch_are_ignored(
    text: Seq<char>,
    pre: Seq<Seq<char>>,
    ls: Seq<Seq<char>>,
)
    requires
        lines_of(text) == pre + ls,
        forall|k: int| 0 <= k < pre.len() ==> trim(#[trigger] pre[k]) != begin_marker(),
    ensures
        parse_spec(text) == shifted_result(read_lines(ls), pre.len()),
{
    lemma_begin_shift(pre, ls, 0);
    lemma_find_begin_after(ls, 0);
    if let Some(b) = find_begin(ls, 0) {
        lemma_changes_shift(pre, ls, b + 1, seq![]);
    }
}

/// Whether every hunk has lines that locate it.
pub open spec fn hunks_located(hs: Seq<HunkView>) -> bool {
    forall|k: int| 0 <= k < hs.len() ==> (#[trigger] hs[k]).old.len() > 0
}

/// Whether a change names a file, and, for an update, has hunks, each located by its lines.
pub open spec fn change_well_formed(c: ChangeView) -> bool {
    match c {
        ChangeView::Add { path, .. } => path.len() > 0,
        ChangeView::Delete { path } => path.len() > 0,
        ChangeView::Update { path, hunks } => path.len() > 0 && hunks.len() > 0 && hunks_located(
            hunks,
        ),
    }
}

proof fn lemma_hunks_located(ls: Seq<Seq<char>>, k: int, j: int, a: HunkAcc)
    requires
        hunks_located(a.hunks),
    ensures
        hunks_from(ls, k, j, a) matches Ok(hs) ==> hunks_located(hs),
    decreases j - k,
{
    if k >= j || k < 0 || k >= ls.len() {
        match flush(a) {
            Ok(hs) => {
                if a.open && a.old.len() > 0 {
                    assert forall|q: int| 0 <= q < hs.len() implies (#[trigger] hs[q]).old.len() > 0 by {
                        if q < a.hunks.len() {
                            assert(hs[q] == a.hunks[q]);
                        }
                    }
                }
            },
            Err(_) => {},
        }
    } else {
        let t = trim_end(ls[k]);
        if starts_with(t, hunk_marker()) {
            match flush(a) {
                Err(e) => {},
                Ok(hs) => {
                    assert(hunks_located(hs)) by {
                        if a.open && a.old.len() > 0 {
                            assert forall|q: int| 0 <= q < hs.len() implies (#[trigger] hs[q]).old.len()
                                > 0 by {
                                if q < a.hunks.len() {
                                    assert(hs[q] == a.hunks[q]);
                                }
                            }
                        }
                    }
                    lemma_hunks_located(
                        ls,
                        k + 1,
                        j,
                        HunkAcc { hunks: hs, old: seq![], new: seq![], open: true },
                    );
                },
            }
        } else if starts_with_char(t, '+') {
            lemma_hunks_located(ls, k + 1, j, HunkAcc { new: a.new.push(t.drop_first()), open: true, ..a });
        } else if starts_with_char(t, '-') {
            lemma_hunks_located(ls, k + 1, j, HunkAcc { old: a.old.push(t.drop_first()), open: true, ..a });
        } else if starts_with_char(t, ' ') {
            lemma_hunks_located(
                ls,
                k + 1,
                j,
                HunkAcc {
                    old: a.old.push(t.drop_first()),
                    new: a.new.push(t.drop_first()),
                    open: true,
                    ..a
                },
            );
        } else if t.len() == 0 {
            lemma_hunks_located(
                ls,
                k + 1,
                j,
                HunkAcc {
                    old: a.old.push(Seq::<char>::empty()),
                    new: a.new.push(Seq::<char>::empty()),
                    open: true,
                    ..a
                },
            );
        }
    }
}

proof fn lemma_changes_well_formed(ls: Seq<Seq<char>>, i: int, acc: Seq<ChangeView>)
    requires
        forall|c: int| 0 <= c < acc.len() ==> change_well_formed(#[trigger] acc[c]),
    ensures
        changes_from(ls, i, acc) matches Ok(cs) ==> cs.len() > 0 && forall|c: int|
            0 <= c < cs.len() ==> change_well_formed(#[trigger] cs[c]),
    decreases ls.len() - i,
{
    if i >= ls.len() || i < 0 {
    } else {
        let line = trim_end(ls[i]);
        if trim(line) == end_marker() {
        } else {
            match directive_of(line) {
                None => {},
                Some((kind, path)) => {
                    if path.len() == 0 {
                    } else if kind == add_kind() {
                        let j = block_end(ls, i + 1);
                        lemma_block_end_bounds(ls, i + 1);
                        if add_body_ok(ls, i + 1, j) {
                            let next = acc.push(
                                ChangeView::Add { path, content: add_content(ls, i + 1, j) },
                            );
                            assert forall|c: int| 0 <= c < next.len() implies change_well_formed(
                                #[trigger] next[c],
                            ) by {
                                if c < acc.len() {
                                    assert(next[c] == acc[c]);
                                }
                            }
                            lemma_changes_well_formed(ls, j, next);
                        }
                    } else if kind == delete_kind() {
                        let next = acc.push(ChangeView::Delete { path });
                        assert forall|c: int| 0 <= c < next.len() implies change_well_formed(
                            #[trigger] next[c],
                        ) by {
                            if c < acc.len() {
                                assert(next[c] == acc[c]);
                            }
                        }
                        lemma_changes_well_formed(ls, i + 1, next);
                    } else {
                        let j = block_end(ls, i + 1);
                        lemma_block_end_bounds(ls, i + 1);
                        lemma_hunks_located(ls, i + 1, j, empty_acc());
                        match hunks_from(ls, i + 1, j, empty_acc()) {
                            Err(e) => {},
                            Ok(hs) => if hs.len() > 0 {
                                let next = acc.push(ChangeView::Update { path, hunks: hs });
                                assert forall|c: int| 0 <= c < next.len() implies change_well_formed(
                                    #[trigger] next[c],
                                ) by {
                                    if c < acc.len() {
                                        assert(next[c] == acc[c]);
                                    }
                                }
                                lemma_changes_well_formed(ls, j, next);
                            },
                        }
                    }
                },
            }
        }
    }
}

/// What a patch that reads has: at least one change; each names its file; an update has at
/// least one hunk; and every hunk has lines that locate it (context or removed lines), so
/// none can be applied nowhere in particular.
pub proof fn law_a_read_patch_is_well_formed(text: Seq<char>)
    ensures
        parse_spec(text) matches Ok(cs) ==> cs.len() > 0 && forall|c: int|
            0 <= c < cs.len() ==> change_well_formed(#[trigger] cs[c]),
{
    let ls = lines_of(text);
    match find_begin(ls, 0) {
        None => {},
        Some(b) => lemma_changes_well_formed(ls, b + 1, seq![]),
    }
}

} // verus!
