//! Text as sequences of characters: the few operations on lines and words that the rest of
//! the library is written in, each with the meaning it has in std.
use vstd::prelude::*;

verus! {

// ---------------------------------------------------------------------------------------
// Trusted conversions between std strings and character vectors.
// ---------------------------------------------------------------------------------------

/// The characters of a string slice, in order (`str::chars`, collected).
pub(crate) fn chars_of(s: &str) -> (v: Vec<char>)
    ensures
        v@ == s@,
{
    broadcast use vstd::string::axiom_spec_iter;

    let mut v: Vec<char> = Vec::new();
    for c in it: s.chars()
        invariant
            v@ == it.seq().take(it.index() as int),
    {
        v.push(c);
    }
    v
}

/// A `String` holding exactly these characters (`FromIterator<&char> for String`).
///
/// Trusted: claims that collecting the characters into a `String` keeps them, in order.
#[verifier::external_body]
pub(crate) fn string_of(v: &Vec<char>) -> (s: String)
    ensures
        s@ == v@,
{
    v.iter().collect()
}

// ---------------------------------------------------------------------------------------
// Whitespace, as `char::is_whitespace` defines it (the Unicode `White_Space` property).
// ---------------------------------------------------------------------------------------

pub open spec fn is_ws(c: char) -> bool {
    let u = c as u32;
    ||| u == 0x20
    ||| (0x09 <= u && u <= 0x0d)
    ||| u == 0x85
    ||| u == 0xa0
    ||| u == 0x1680
    ||| (0x2000 <= u && u <= 0x200a)
    ||| u == 0x2028
    ||| u == 0x2029
    ||| u == 0x202f
    ||| u == 0x205f
    ||| u == 0x3000
}

pub fn is_whitespace(c: char) -> (b: bool)
    ensures
        b == is_ws(c),
{
    let u = c as u32;
    u == 0x20 || (0x09 <= u && u <= 0x0d) || u == 0x85 || u == 0xa0 || u == 0x1680 || (0x2000
        <= u && u <= 0x200a) || u == 0x2028 || u == 0x2029 || u == 0x202f || u == 0x205f || u
        == 0x3000
}

/// `str::trim_end`: the text without the whitespace at its end.
pub open spec fn trim_end(s: Seq<char>) -> Seq<char>
    decreases s.len(),
{
    if s.len() > 0 && is_ws(s.last()) {
        trim_end(s.drop_last())
    } else {
        s
    }
}

/// `str::trim_start`: the text without the whitespace at its start.
pub open spec fn trim_start(s: Seq<char>) -> Seq<char>
    decreases s.len(),
{
    if s.len() > 0 && is_ws(s[0]) {
        trim_start(s.drop_first())
    } else {
        s
    }
}

/// `str::trim`: both ends.
pub open spec fn trim(s: Seq<char>) -> Seq<char> {
    trim_start(trim_end(s))
}

/// Whether `p` is the first part of `s` (`str::starts_with`).
pub open spec fn starts_with(s: Seq<char>, p: Seq<char>) -> bool {
    p.len() <= s.len() && s.subrange(0, p.len() as int) == p
}

/// The text holds no line break: no `\n` and no `\r`.
pub open spec fn no_break(s: Seq<char>) -> bool {
    forall|i: int| 0 <= i < s.len() ==> #[trigger] s[i] != '\n' && s[i] != '\r'
}

/// What follows the prefix `p` (`str::strip_prefix`), when `s` starts with it.
pub open spec fn strip_prefix(s: Seq<char>, p: Seq<char>) -> Option<Seq<char>> {
    if starts_with(s, p) {
        Some(s.subrange(p.len() as int, s.len() as int))
    } else {
        None
    }
}

/// Whether the text contains the character.
pub open spec fn has_char(s: Seq<char>, c: char) -> bool {
    exists|i: int| 0 <= i < s.len() && s[i] == c
}

/// The index just past the text of `v[lo..hi]` once its trailing whitespace is dropped.
pub fn trim_end_at(v: &Vec<char>, lo: usize, hi: usize) -> (e: usize)
    requires
        lo <= hi <= v@.len(),
    ensures
        lo <= e <= hi,
        v@.subrange(lo as int, e as int) == trim_end(v@.subrange(lo as int, hi as int)),
{
    let mut e = hi;
    while e > lo && is_whitespace(v[e - 1])
        invariant
            lo <= e <= hi <= v@.len(),
            trim_end(v@.subrange(lo as int, e as int)) == trim_end(
                v@.subrange(lo as int, hi as int),
            ),
        decreases e,
    {
        assert(v@.subrange(lo as int, e as int).drop_last() =~= v@.subrange(
            lo as int,
            e - 1 as int,
        ));
        e = e - 1;
    }
    e
}

/// The index where the text of `v[lo..hi]` starts once its leading whitespace is dropped.
pub fn trim_start_at(v: &Vec<char>, lo: usize, hi: usize) -> (s: usize)
    requires
        lo <= hi <= v@.len(),
    ensures
        lo <= s <= hi,
        v@.subrange(s as int, hi as int) == trim_start(v@.subrange(lo as int, hi as int)),
{
    let mut s = lo;
    while s < hi && is_whitespace(v[s])
        invariant
            lo <= s <= hi <= v@.len(),
            trim_start(v@.subrange(s as int, hi as int)) == trim_start(
                v@.subrange(lo as int, hi as int),
            ),
        decreases hi - s,
    {
        assert(v@.subrange(s as int, hi as int).drop_first() =~= v@.subrange(
            s + 1 as int,
            hi as int,
        ));
        s = s + 1;
    }
    s
}

/// The characters `v[lo..hi]`, copied.
pub fn copy_range(v: &Vec<char>, lo: usize, hi: usize) -> (out: Vec<char>)
    requires
        lo <= hi <= v@.len(),
    ensures
        out@ == v@.subrange(lo as int, hi as int),
{
    let mut out: Vec<char> = Vec::new();
    let mut i = lo;
    while i < hi
        invariant
            lo <= i <= hi <= v@.len(),
            out@ == v@.subrange(lo as int, i as int),
        decreases hi - i,
    {
        out.push(v[i]);
        i = i + 1;
    }
    out
}

/// Whether `v[lo..hi]` is exactly the characters of `w`.
pub fn range_eq(v: &Vec<char>, lo: usize, hi: usize, w: &Vec<char>) -> (b: bool)
    requires
        lo <= hi <= v@.len(),
    ensures
        b == (v@.subrange(lo as int, hi as int) == w@),
{
    if hi - lo != w.len() {
        return false;
    }
    let mut i: usize = 0;
    while i < w.len()
        invariant
            lo <= hi <= v@.len(),
            hi - lo == w@.len(),
            i <= w@.len(),
            forall|k: int| 0 <= k < i ==> v@[lo + k] == w@[k],
        decreases w@.len() - i,
    {
        if v[lo + i] != w[i] {
            assert(v@.subrange(lo as int, hi as int)[i as int] != w@[i as int]);
            return false;
        }
        i = i + 1;
    }
    assert(v@.subrange(lo as int, hi as int) =~= w@);
    true
}

/// Whether `v[lo..hi]` starts with the characters of `p`.
pub fn range_starts_with(v: &Vec<char>, lo: usize, hi: usize, p: &Vec<char>) -> (b: bool)
    requires
        lo <= hi <= v@.len(),
    ensures
        b == starts_with(v@.subrange(lo as int, hi as int), p@),
{
    if p.len() > hi - lo {
        return false;
    }
    let r = range_eq(v, lo, lo + p.len(), p);
    assert(v@.subrange(lo as int, hi as int).subrange(0, p@.len() as int) =~= v@.subrange(
        lo as int,
        lo + p@.len(),
    ));
    r
}

/// Whether two character vectors hold the same characters.
pub fn chars_eq(a: &Vec<char>, b: &Vec<char>) -> (r: bool)
    ensures
        r == (a@ == b@),
{
    let r = range_eq(a, 0, a.len(), b);
    assert(a@.subrange(0, a@.len() as int) =~= a@);
    r
}

// ---------------------------------------------------------------------------------------
// Decimal numbers, as `Display` writes an unsigned integer.
// ---------------------------------------------------------------------------------------

pub open spec fn digit(d: nat) -> char {
    if d == 0 {
        '0'
    } else if d == 1 {
        '1'
    } else if d == 2 {
        '2'
    } else if d == 3 {
        '3'
    } else if d == 4 {
        '4'
    } else if d == 5 {
        '5'
    } else if d == 6 {
        '6'
    } else if d == 7 {
        '7'
    } else if d == 8 {
        '8'
    } else {
        '9'
    }
}

/// The decimal digits of `n`, most significant first, with no leading zeros.
pub open spec fn decimal(n: nat) -> Seq<char>
    decreases n,
{
    if n < 10 {
        seq![digit(n)]
    } else {
        decimal(n / 10).push(digit(n % 10))
    }
}

fn digit_char(d: u64) -> (c: char)
    requires
        d < 10,
    ensures
        c == digit(d as nat),
{
    if d == 0 {
        '0'
    } else if d == 1 {
        '1'
    } else if d == 2 {
        '2'
    } else if d == 3 {
        '3'
    } else if d == 4 {
        '4'
    } else if d == 5 {
        '5'
    } else if d == 6 {
        '6'
    } else if d == 7 {
        '7'
    } else if d == 8 {
        '8'
    } else {
        '9'
    }
}

/// `n`, written in decimal.
pub fn decimal_chars(n: u64) -> (out: Vec<char>)
    ensures
        out@ == decimal(n as nat),
    decreases n,
{
    if n < 10 {
        let mut out: Vec<char> = Vec::new();
        out.push(digit_char(n));
        out
    } else {
        let mut out = decimal_chars(n / 10);
        out.push(digit_char(n % 10));
        out
    }
}

/// Append the characters of `w` to `out`.
pub fn extend_chars(out: &mut Vec<char>, w: &Vec<char>)
    ensures
        final(out)@ == old(out)@ + w@,
{
    let ghost start = out@;
    let mut i: usize = 0;
    while i < w.len()
        invariant
            i <= w@.len(),
            out@ == start + w@.subrange(0, i as int),
        decreases w@.len() - i,
    {
        out.push(w[i]);
        i = i + 1;
        assert(out@ =~= start + w@.subrange(0, i as int));
    }
    assert(w@.subrange(0, w@.len() as int) =~= w@);
}

/// Append the characters of a string slice to `out`.
pub fn extend_str(out: &mut Vec<char>, s: &str)
    ensures
        final(out)@ == old(out)@ + s@,
{
    let w = chars_of(s);
    extend_chars(out, &w);
}


// ---------------------------------------------------------------------------------------
// Finding a character, and splitting text into lines as `str::lines` does.
// ---------------------------------------------------------------------------------------

/// The position of the first `c` in `s`, if there is one.
pub open spec fn first_index(s: Seq<char>, c: char) -> Option<int>
    decreases s.len(),
{
    if s.len() == 0 {
        None
    } else if s[0] == c {
        Some(0)
    } else {
        match first_index(s.drop_first(), c) {
            Some(i) => Some(i + 1),
            None => None,
        }
    }
}

pub proof fn lemma_first_index_found(s: Seq<char>, c: char, j: int)
    requires
        0 <= j < s.len(),
        s[j] == c,
        forall|k: int| 0 <= k < j ==> s[k] != c,
    ensures
        first_index(s, c) == Some(j),
    decreases j,
{
    if j > 0 {
        lemma_first_index_found(s.drop_first(), c, j - 1);
    }
}

pub proof fn lemma_first_index_absent(s: Seq<char>, c: char)
    requires
        forall|k: int| 0 <= k < s.len() ==> s[k] != c,
    ensures
        first_index(s, c) is None,
    decreases s.len(),
{
    if s.len() > 0 {
        lemma_first_index_absent(s.drop_first(), c);
    }
}

pub proof fn lemma_first_index_bounds(s: Seq<char>, c: char)
    ensures
        first_index(s, c) matches Some(i) ==> {
            &&& 0 <= i < s.len()
            &&& s[i] == c
            &&& forall|k: int| 0 <= k < i ==> s[k] != c
        },
        first_index(s, c) is None ==> forall|k: int| 0 <= k < s.len() ==> s[k] != c,
    decreases s.len(),
{
    if s.len() > 0 {
        lemma_first_index_bounds(s.drop_first(), c);
        if s[0] != c {
            assert forall|k: int| 1 <= k < s.len() implies s[k] == s.drop_first()[k - 1] by {}
        }
    }
}

/// The position of the first `c` in `v[lo..hi]`, counted from `lo`.
pub fn find_char(v: &Vec<char>, lo: usize, hi: usize, c: char) -> (r: Option<usize>)
    requires
        lo <= hi <= v@.len(),
    ensures
        match r {
            Some(p) => lo <= p < hi && first_index(v@.subrange(lo as int, hi as int), c) == Some(
                p - lo,
            ),
            None => first_index(v@.subrange(lo as int, hi as int), c) is None,
        },
{
    let mut j = lo;
    while j < hi
        invariant
            lo <= j <= hi <= v@.len(),
            forall|k: int| lo <= k < j ==> v@[k] != c,
        decreases hi - j,
    {
        if v[j] == c {
            proof {
                let s = v@.subrange(lo as int, hi as int);
                assert forall|k: int| 0 <= k < j - lo implies s[k] != c by {
                    assert(s[k] == v@[lo + k]);
                }
                lemma_first_index_found(s, c, j - lo);
            }
            return Some(j);
        }
        j = j + 1;
    }
    proof {
        let s = v@.subrange(lo as int, hi as int);
        assert forall|k: int| 0 <= k < s.len() implies s[k] != c by {
            assert(s[k] == v@[lo + k]);
        }
        lemma_first_index_absent(s, c);
    }
    None
}

/// A line without the carriage return of a `\r\n` ending.
pub open spec fn strip_cr(l: Seq<char>) -> Seq<char> {
    if l.len() > 0 && l.last() == '\r' {
        l.drop_last()
    } else {
        l
    }
}

/// `str::lines`: the text up to each `\n` (a `\r` right before it dropped), and whatever
/// follows the last `\n`, when anything does.
pub open spec fn lines_of(s: Seq<char>) -> Seq<Seq<char>>
    decreases s.len(),
{
    match first_index(s, '\n') {
        Some(p) => {
            proof {
                lemma_first_index_bounds(s, '\n');
            }
            seq![strip_cr(s.subrange(0, p))] + lines_of(s.subrange(p + 1, s.len() as int))
        },
        None => if s.len() == 0 {
            seq![]
        } else {
            seq![s]
        },
    }
}

/// The characters of each vector.
pub open spec fn views(ls: Seq<Vec<char>>) -> Seq<Seq<char>> {
    ls.map_values(|l: Vec<char>| l@)
}

/// The lines of a text, as `str::lines` reads them.
pub fn lines(text: &str) -> (out: Vec<Vec<char>>)
    ensures
        views(out@) == lines_of(text@),
{
    let v = chars_of(text);
    let n = v.len();
    let mut out: Vec<Vec<char>> = Vec::new();
    let mut start: usize = 0;
    assert(v@.subrange(0, n as int) =~= v@);
    assert(views(out@) =~= Seq::<Seq<char>>::empty());
    while start < n
        invariant
            n == v@.len(),
            v@ == text@,
            start <= n,
            views(out@) + lines_of(v@.subrange(start as int, n as int)) == lines_of(v@),
        decreases n - start,
    {
        let ghost rest = v@.subrange(start as int, n as int);
        match find_char(&v, start, n, '\n') {
            Some(p) => {
                let mut end = p;
                if end > start && v[end - 1] == '\r' {
                    end = end - 1;
                }
                let line = copy_range(&v, start, end);
                proof {
                    assert(rest.subrange(0, p - start) =~= v@.subrange(start as int, p as int));
                    assert(rest.subrange(p - start + 1, rest.len() as int) =~= v@.subrange(
                        p + 1,
                        n as int,
                    ));
                    if p > start && v@[p - 1] == '\r' {
                        assert(v@.subrange(start as int, p as int).drop_last() =~= v@.subrange(
                            start as int,
                            end as int,
                        ));
                    }
                    assert(line@ == strip_cr(rest.subrange(0, p - start)));
                }
                let ghost before = views(out@);
                out.push(line);
                proof {
                    assert(views(out@) =~= before.push(line@));
                    assert(lines_of(rest) == seq![line@] + lines_of(
                        v@.subrange(p + 1, n as int),
                    ));
                    assert(views(out@) + lines_of(v@.subrange(p + 1, n as int))
                        =~= before + lines_of(rest));
                }
                start = p + 1;
            },
            None => {
                let line = copy_range(&v, start, n);
                let ghost before = views(out@);
                out.push(line);
                proof {
                    assert(views(out@) =~= before.push(line@));
                    assert(lines_of(rest) == seq![rest]);
                    assert(lines_of(v@.subrange(n as int, n as int)) == Seq::<Seq<char>>::empty())
                        by {
                        lemma_first_index_absent(v@.subrange(n as int, n as int), '\n');
                    }
                    assert(views(out@) + lines_of(v@.subrange(n as int, n as int))
                        =~= before + lines_of(rest));
                }
                start = n;
            },
        }
    }
    proof {
        let e = v@.subrange(n as int, n as int);
        lemma_first_index_absent(e, '\n');
        assert(lines_of(e) =~= Seq::<Seq<char>>::empty());
        assert(views(out@) + lines_of(e) =~= views(out@));
    }
    out
}


/// The pieces of `s` between the occurrences of `c` (`str::split`): always at least one.
pub open spec fn split_on(s: Seq<char>, c: char) -> Seq<Seq<char>>
    decreases s.len(),
{
    match first_index(s, c) {
        Some(p) => {
            proof {
                lemma_first_index_bounds(s, c);
            }
            seq![s.subrange(0, p)] + split_on(s.subrange(p + 1, s.len() as int), c)
        },
        None => seq![s],
    }
}

/// The pieces of `v[lo..hi]` between the occurrences of `c`.
pub fn split_chars(v: &Vec<char>, lo: usize, hi: usize, c: char) -> (out: Vec<Vec<char>>)
    requires
        lo <= hi <= v@.len(),
    ensures
        views(out@) == split_on(v@.subrange(lo as int, hi as int), c),
        out@.len() >= 1,
{
    let mut out: Vec<Vec<char>> = Vec::new();
    let mut start: usize = lo;
    assert(views(out@) =~= Seq::<Seq<char>>::empty());
    loop
        invariant
            lo <= start <= hi <= v@.len(),
            views(out@) + split_on(v@.subrange(start as int, hi as int), c) == split_on(
                v@.subrange(lo as int, hi as int),
                c,
            ),
        decreases hi - start,
    {
        let ghost rest = v@.subrange(start as int, hi as int);
        match find_char(v, start, hi, c) {
            Some(p) => {
                let piece = copy_range(v, start, p);
                proof {
                    assert(rest.subrange(0, p - start) =~= v@.subrange(start as int, p as int));
                    assert(rest.subrange(p - start + 1, rest.len() as int) =~= v@.subrange(
                        p + 1,
                        hi as int,
                    ));
                }
                let ghost before = views(out@);
                let ghost raw = out@;
                out.push(piece);
                proof {
                    assert(out@ == raw.push(piece));
                    assert(views(out@) =~= before.push(piece@));
                    assert(split_on(rest, c) == seq![piece@] + split_on(
                        v@.subrange(p + 1, hi as int),
                        c,
                    ));
                    assert(views(out@) + split_on(v@.subrange(p + 1, hi as int), c) =~= before
                        + split_on(rest, c));
                }
                start = p + 1;
            },
            None => {
                let piece = copy_range(v, start, hi);
                let ghost before = views(out@);
                let ghost raw = out@;
                out.push(piece);
                proof {
                    assert(out@ == raw.push(piece));
                    assert(views(out@) =~= before.push(piece@));
                    assert(split_on(rest, c) == seq![rest]);
                    assert(views(out@) =~= before + split_on(rest, c));
                }
                return out;
            },
        }
    }
}

/// The lines joined with `\n`.
pub open spec fn join_nl(ls: Seq<Seq<char>>) -> Seq<char>
    decreases ls.len(),
{
    if ls.len() == 0 {
        Seq::<char>::empty()
    } else if ls.len() == 1 {
        ls[0]
    } else {
        join_nl(ls.drop_last()) + seq!['\n'] + ls.last()
    }
}

/// The lines joined with `\n`, with a final `\n` unless the result is empty.
pub open spec fn join_lines(ls: Seq<Seq<char>>) -> Seq<char> {
    if join_nl(ls).len() > 0 {
        join_nl(ls).push('\n')
    } else {
        join_nl(ls)
    }
}

/// `join_lines`, over character vectors.
pub fn join_lines_exec(ls: &Vec<Vec<char>>) -> (out: Vec<char>)
    ensures
        out@ == join_lines(views(ls@)),
{
    let mut out: Vec<char> = Vec::new();
    let mut i: usize = 0;
    while i < ls.len()
        invariant
            i <= ls@.len(),
            out@ == join_nl(views(ls@).subrange(0, i as int)),
        decreases ls@.len() - i,
    {
        let ghost before = views(ls@).subrange(0, i as int);
        if i > 0 {
            out.push('\n');
        }
        extend_chars(&mut out, &ls[i]);
        i = i + 1;
        proof {
            let now = views(ls@).subrange(0, i as int);
            assert(now.drop_last() =~= before);
            assert(now.last() == ls@[i - 1]@);
            if i == 1 {
                assert(join_nl(before) =~= Seq::<char>::empty());
            }
        }
    }
    assert(views(ls@).subrange(0, ls@.len() as int) =~= views(ls@));
    if out.len() > 0 {
        out.push('\n');
    }
    out
}


// ---------------------------------------------------------------------------------------
// Words, joining, and the last separator.
// ---------------------------------------------------------------------------------------

/// The position of the first whitespace character in `s`, if there is one.
pub open spec fn first_ws(s: Seq<char>) -> Option<int>
    decreases s.len(),
{
    if s.len() == 0 {
        None
    } else if is_ws(s[0]) {
        Some(0)
    } else {
        match first_ws(s.drop_first()) {
            Some(i) => Some(i + 1),
            None => None,
        }
    }
}

pub proof fn lemma_first_ws(s: Seq<char>)
    ensures
        first_ws(s) matches Some(i) ==> {
            &&& 0 <= i < s.len()
            &&& is_ws(s[i])
            &&& forall|k: int| 0 <= k < i ==> !is_ws(s[k])
        },
        first_ws(s) is None ==> forall|k: int| 0 <= k < s.len() ==> !is_ws(s[k]),
    decreases s.len(),
{
    if s.len() > 0 {
        lemma_first_ws(s.drop_first());
        if !is_ws(s[0]) {
            assert forall|k: int| 1 <= k < s.len() implies s[k] == s.drop_first()[k - 1] by {}
        }
    }
}

pub proof fn lemma_first_ws_found(s: Seq<char>, j: int)
    requires
        0 <= j < s.len(),
        is_ws(s[j]),
        forall|k: int| 0 <= k < j ==> !is_ws(s[k]),
    ensures
        first_ws(s) == Some(j),
    decreases j,
{
    if j > 0 {
        lemma_first_ws_found(s.drop_first(), j - 1);
    }
}

pub proof fn lemma_first_ws_absent(s: Seq<char>)
    requires
        forall|k: int| 0 <= k < s.len() ==> !is_ws(s[k]),
    ensures
        first_ws(s) is None,
    decreases s.len(),
{
    if s.len() > 0 {
        lemma_first_ws_absent(s.drop_first());
    }
}

/// The position of the first whitespace character in `v[lo..hi]`, counted from `lo`.
pub fn find_ws(v: &Vec<char>, lo: usize, hi: usize) -> (r: Option<usize>)
    requires
        lo <= hi <= v@.len(),
    ensures
        match r {
            Some(p) => lo <= p < hi && first_ws(v@.subrange(lo as int, hi as int)) == Some(p - lo),
            None => first_ws(v@.subrange(lo as int, hi as int)) is None,
        },
{
    let mut j = lo;
    while j < hi
        invariant
            lo <= j <= hi <= v@.len(),
            forall|k: int| lo <= k < j ==> !is_ws(v@[k]),
        decreases hi - j,
    {
        if is_whitespace(v[j]) {
            proof {
                let s = v@.subrange(lo as int, hi as int);
                assert forall|k: int| 0 <= k < j - lo implies !is_ws(s[k]) by {
                    assert(s[k] == v@[lo + k]);
                }
                lemma_first_ws_found(s, j - lo);
            }
            return Some(j);
        }
        j = j + 1;
    }
    proof {
        let s = v@.subrange(lo as int, hi as int);
        assert forall|k: int| 0 <= k < s.len() implies !is_ws(s[k]) by {
            assert(s[k] == v@[lo + k]);
        }
        lemma_first_ws_absent(s);
    }
    None
}

/// `str::split_whitespace`: the runs of characters between whitespace.
pub open spec fn words_of(s: Seq<char>) -> Seq<Seq<char>>
    decreases s.len(),
{
    if s.len() == 0 {
        Seq::<Seq<char>>::empty()
    } else if is_ws(s[0]) {
        words_of(s.drop_first())
    } else {
        match first_ws(s) {
            Some(e) => {
                proof {
                    lemma_first_ws(s);
                }
                seq![s.subrange(0, e)] + words_of(s.subrange(e, s.len() as int))
            },
            None => seq![s],
        }
    }
}

/// The words of `v`.
pub fn words(v: &Vec<char>) -> (out: Vec<Vec<char>>)
    ensures
        views(out@) == words_of(v@),
{
    let n = v.len();
    let mut out: Vec<Vec<char>> = Vec::new();
    let mut i: usize = 0;
    assert(v@.subrange(0, n as int) =~= v@);
    assert(views(out@) =~= Seq::<Seq<char>>::empty());
    while i < n
        invariant
            n == v@.len(),
            i <= n,
            views(out@) + words_of(v@.subrange(i as int, n as int)) == words_of(v@),
        decreases n - i,
    {
        let ghost rest = v@.subrange(i as int, n as int);
        if is_whitespace(v[i]) {
            assert(rest.drop_first() =~= v@.subrange(i + 1, n as int));
            i = i + 1;
        } else {
            let end = match find_ws(v, i, n) {
                Some(e) => e,
                None => n,
            };
            proof {
                lemma_first_ws(rest);
                if end < n {
                    assert(rest.subrange(0, end - i) =~= v@.subrange(i as int, end as int));
                    assert(rest.subrange(end - i, rest.len() as int) =~= v@.subrange(
                        end as int,
                        n as int,
                    ));
                } else {
                    assert(rest =~= v@.subrange(i as int, end as int));
                    assert(v@.subrange(n as int, n as int) =~= Seq::<char>::empty());
                }
            }
            let w = copy_range(v, i, end);
            let ghost before = views(out@);
            let ghost raw = out@;
            out.push(w);
            proof {
                assert(out@ == raw.push(w));
                assert(views(out@) =~= before.push(w@));
                assert(words_of(rest) == seq![w@] + words_of(v@.subrange(end as int, n as int)));
                assert(views(out@) + words_of(v@.subrange(end as int, n as int)) =~= before
                    + words_of(rest));
            }
            i = end;
        }
    }
    assert(words_of(v@.subrange(n as int, n as int)) =~= Seq::<Seq<char>>::empty());
    assert(views(out@) + Seq::<Seq<char>>::empty() =~= views(out@));
    out
}

/// The pieces joined with `sep` between them (`[T]::join`).
pub open spec fn join_with(ls: Seq<Seq<char>>, sep: Seq<char>) -> Seq<char>
    decreases ls.len(),
{
    if ls.len() == 0 {
        Seq::<char>::empty()
    } else if ls.len() == 1 {
        ls[0]
    } else {
        join_with(ls.drop_last(), sep) + sep + ls.last()
    }
}

/// The pieces joined with `sep` between them.
pub fn join_chars(ls: &Vec<Vec<char>>, sep: &Vec<char>) -> (out: Vec<char>)
    ensures
        out@ == join_with(views(ls@), sep@),
{
    let mut out: Vec<char> = Vec::new();
    let mut i: usize = 0;
    while i < ls.len()
        invariant
            i <= ls@.len(),
            out@ == join_with(views(ls@).subrange(0, i as int), sep@),
        decreases ls@.len() - i,
    {
        let ghost before = views(ls@).subrange(0, i as int);
        if i > 0 {
            extend_chars(&mut out, sep);
        }
        extend_chars(&mut out, &ls[i]);
        i = i + 1;
        proof {
            let now = views(ls@).subrange(0, i as int);
            assert(now.drop_last() =~= before);
            assert(now.last() == ls@[i - 1]@);
            if i == 1 {
                assert(join_with(before, sep@) =~= Seq::<char>::empty());
            }
        }
    }
    assert(views(ls@).subrange(0, ls@.len() as int) =~= views(ls@));
    out
}

/// Whether the characters of `w` are those of the string slice.
pub fn eq_str(w: &Vec<char>, lit: &str) -> (b: bool)
    ensures
        b == (w@ == lit@),
{
    let l = chars_of(lit);
    chars_eq(w, &l)
}

/// A string holding `v[lo..hi]`.
pub fn string_of_range(v: &Vec<char>, lo: usize, hi: usize) -> (s: String)
    requires
        lo <= hi <= v@.len(),
    ensures
        s@ == v@.subrange(lo as int, hi as int),
{
    let c = copy_range(v, lo, hi);
    string_of(&c)
}

// ---------------------------------------------------------------------------------------
// Whole strings: trimmed copies, ASCII case, and containment.
// ---------------------------------------------------------------------------------------

/// The text of an optional string.
pub open spec fn ov(o: Option<String>) -> Option<Seq<char>> {
    match o {
        Some(s) => Some(s@),
        None => None,
    }
}

/// `str::trim`, as a new string.
pub fn trim_str(s: &str) -> (t: String)
    ensures
        t@ == trim(s@),
{
    let v = chars_of(s);
    let n = v.len();
    assert(v@.subrange(0, n as int) =~= v@);
    let e = trim_end_at(&v, 0, n);
    let b = trim_start_at(&v, 0, e);
    string_of_range(&v, b, e)
}

/// Whether the text is empty once trimmed (`s.trim().is_empty()`).
pub fn is_blank(s: &str) -> (b: bool)
    ensures
        b == (trim(s@).len() == 0),
{
    let t = trim_str(s);
    let v = chars_of(t.as_str());
    v.len() == 0
}

/// `char::to_ascii_lowercase`.
pub open spec fn ascii_lower(c: char) -> char {
    if 'A' <= c && c <= 'Z' {
        ((c as u32) + 32) as char
    } else {
        c
    }
}

/// `str::to_ascii_lowercase`.
pub open spec fn lower(s: Seq<char>) -> Seq<char> {
    Seq::new(s.len(), |i: int| ascii_lower(s[i]))
}

/// Whether `p` occurs in `s` (`str::contains` with a string pattern).
pub open spec fn contains(s: Seq<char>, p: Seq<char>) -> bool {
    exists|k: int| 0 <= k && k + p.len() <= s.len() && #[trigger] s.subrange(k, k + p.len()) == p
}

fn lower_char(c: char) -> (d: char)
    ensures
        d == ascii_lower(c),
{
    if 'A' <= c && c <= 'Z' {
        let u = (c as u32) + 32;
        let b = u as u8;
        b as char
    } else {
        c
    }
}

/// The characters of `s`, with ASCII capitals made small.
pub fn lower_chars(s: &str) -> (out: Vec<char>)
    ensures
        out@ == lower(s@),
{
    let v = chars_of(s);
    let mut out: Vec<char> = Vec::new();
    let mut i: usize = 0;
    while i < v.len()
        invariant
            i <= v@.len(),
            v@ == s@,
            out@ == lower(s@).subrange(0, i as int),
        decreases v@.len() - i,
    {
        out.push(lower_char(v[i]));
        i = i + 1;
        assert(out@ =~= lower(s@).subrange(0, i as int));
    }
    assert(lower(s@).subrange(0, v@.len() as int) =~= lower(s@));
    out
}

/// Whether the characters of `p` occur in `v`.
pub fn contains_chars(v: &Vec<char>, p: &Vec<char>) -> (b: bool)
    ensures
        b == contains(v@, p@),
{
    let n = v.len();
    let m = p.len();
    if m > n {
        return false;
    }
    if m == 0 {
        assert(v@.subrange(0, 0 + p@.len() as int) =~= p@);
        return true;
    }
    let mut k: usize = 0;
    while k <= n - m
        invariant
            0 < m <= n,
            k <= n - m + 1,
            n == v@.len(),
            m == p@.len(),
            forall|j: int| 0 <= j < k ==> #[trigger] v@.subrange(j, j + m) != p@,
        decreases n - m + 1 - k,
    {
        if range_eq(v, k, k + m, p) {
            assert(v@.subrange(k as int, k + p@.len()) == p@);
            return true;
        }
        k = k + 1;
    }
    assert forall|j: int| 0 <= j && j + p@.len() <= v@.len() implies #[trigger] v@.subrange(
        j,
        j + p@.len(),
    ) != p@ by {
        assert(j < k);
    }
    false
}

/// What `{:?}` writes for a string: the text in double quotes, with the characters that
/// `Debug` escapes escaped.
pub uninterp spec fn debug_text(s: Seq<char>) -> Seq<char>;

/// `format!("{:?}", s)`.
///
/// Trusted: the text depends on `s` alone; the contract names it and says no more.
#[verifier::external_body]
pub(crate) fn debug_quoted(s: &str) -> (r: String)
    ensures
        r@ == debug_text(s@),
{
    format!("{:?}", s)
}

} // verus!
