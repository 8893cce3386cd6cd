//! The decimal text of a JSON number, read exactly.
//!
//! A number is held as the text `serde_json` writes for it. What the schema checks need of a
//! number (whether it is whole, the count it writes, how two numbers order, and how it reads
//! in plain decimal) is read here from that text, digit by digit, with no rounding.
use vstd::prelude::*;

use crate::args::{digits_ok, digits_value, is_digit};
use crate::text::{copy_range, find_char, first_index};

verus! {

/// `k` zeros.
pub open spec fn zeros(k: int) -> Seq<char> {
    Seq::new(k as nat, |i: int| '0')
}

/// Whether `c` marks an exponent.
pub open spec fn is_mark(c: char) -> bool {
    c == 'e' || c == 'E'
}

/// The position of the first exponent mark in `s` at or after `i`.
pub open spec fn mark_from(s: Seq<char>, i: int) -> Option<int>
    decreases s.len() - i,
{
    if i < 0 || i >= s.len() {
        None
    } else if is_mark(s[i]) {
        Some(i)
    } else {
        mark_from(s, i + 1)
    }
}

/// The value of an exponent: an optional sign, then one to four digits. (No number that
/// `serde_json` writes has a longer exponent.)
pub open spec fn exponent_of(x: Seq<char>) -> Option<int> {
    let signed = x.len() > 0 && (x[0] == '+' || x[0] == '-');
    let d = if signed {
        x.skip(1)
    } else {
        x
    };
    if d.len() == 0 || d.len() > 4 || !digits_ok(d) {
        None
    } else if signed && x[0] == '-' {
        Some(-(digits_value(d) as int))
    } else {
        Some(digits_value(d) as int)
    }
}

/// A number's text read as a sign, a string of digits and a power of ten: `-12.5e3` is
/// `(true, "125", 2)`, the number -125 × 10². `None` when the text is not a decimal number.
pub open spec fn sci(t: Seq<char>) -> Option<(bool, Seq<char>, int)> {
    let neg = t.len() > 0 && t[0] == '-';
    let s = if neg {
        t.skip(1)
    } else {
        t
    };
    let m = mark_from(s, 0);
    let mant = match m {
        Some(k) => s.take(k),
        None => s,
    };
    let ex = match m {
        Some(k) => exponent_of(s.skip(k + 1)),
        None => Some(0int),
    };
    let d = first_index(mant, '.');
    let ip = match d {
        Some(k) => mant.take(k),
        None => mant,
    };
    let fp = match d {
        Some(k) => mant.skip(k + 1),
        None => Seq::<char>::empty(),
    };
    if ip.len() == 0 || !digits_ok(ip) || (d is Some && fp.len() == 0) || !digits_ok(fp)
        || ex is None {
        None
    } else {
        Some((neg, ip + fp, ex.unwrap() - fp.len()))
    }
}

proof fn lemma_mark(s: Seq<char>, i: int, k: int)
    requires
        0 <= i <= k <= s.len(),
        forall|j: int| i <= j < k ==> !is_mark(#[trigger] s[j]),
        k < s.len() ==> is_mark(s[k]),
    ensures
        mark_from(s, i) == (if k < s.len() {
            Some(k)
        } else {
            None::<int>
        }),
    decreases k - i,
{
    if i < k {
        lemma_mark(s, i + 1, k);
    }
}

/// The value of `v[lo..hi]`, when it is one to four digits.
fn short_digits(v: &Vec<char>, lo: usize, hi: usize) -> (r: Option<u32>)
    requires
        lo <= hi <= v@.len(),
    ensures
        ({
            let d = v@.subrange(lo as int, hi as int);
            match r {
                Some(x) => d.len() > 0 && d.len() <= 4 && digits_ok(d) && x == digits_value(d) && x
                    < 10000,
                None => !(d.len() > 0 && d.len() <= 4 && digits_ok(d)),
            }
        }),
{
    if hi == lo || hi - lo > 4 {
        return None;
    }
    let mut acc: u32 = 0;
    let mut i = lo;
    while i < hi
        invariant
            lo <= i <= hi <= v@.len(),
            hi - lo <= 4,
            digits_ok(v@.subrange(lo as int, i as int)),
            acc == digits_value(v@.subrange(lo as int, i as int)),
            acc < 10000,
        decreases hi - i,
    {
        let c = v[i];
        let u = c as u32;
        if !(48 <= u && u <= 57) {
            proof {
                let d = v@.subrange(lo as int, hi as int);
                assert(d[i - lo] == c);
                assert(!is_digit(d[i - lo]));
            }
            return None;
        }
        proof {
            let p = v@.subrange(lo as int, i as int + 1);
            assert(p.drop_last() =~= v@.subrange(lo as int, i as int));
            assert(p.last() == c);
            assert(digits_value(v@.subrange(lo as int, i as int)) < 1000) by {
                assert(i - lo < 4);
                lemma_small_value(v@.subrange(lo as int, i as int));
            }
        }
        acc = acc * 10 + (u - 48);
        i = i + 1;
        assert(digits_ok(v@.subrange(lo as int, i as int))) by {
            let p = v@.subrange(lo as int, i as int);
            assert forall|j: int| 0 <= j < p.len() implies is_digit(#[trigger] p[j]) by {
                if j < p.len() - 1 {
                    assert(p[j] == v@.subrange(lo as int, i - 1)[j]);
                }
            }
        }
    }
    Some(acc)
}

/// Digits fewer than four write a number below a thousand.
proof fn lemma_small_value(s: Seq<char>)
    requires
        digits_ok(s),
        s.len() <= 3,
    ensures
        digits_value(s) < if s.len() == 0 {
            1int
        } else if s.len() == 1 {
            10int
        } else if s.len() == 2 {
            100int
        } else {
            1000int
        },
    decreases s.len(),
{
    if s.len() > 0 {
        assert(digits_ok(s.drop_last()));
        lemma_small_value(s.drop_last());
        assert(is_digit(s[s.len() - 1]));
    }
}

/// Whether every character of `v[lo..hi]` is a digit.
fn all_digits(v: &Vec<char>, lo: usize, hi: usize) -> (b: bool)
    requires
        lo <= hi <= v@.len(),
    ensures
        b == digits_ok(v@.subrange(lo as int, hi as int)),
{
    let mut i = lo;
    while i < hi
        invariant
            lo <= i <= hi <= v@.len(),
            forall|j: int| lo <= j < i ==> is_digit(#[trigger] v@[j]),
        decreases hi - i,
    {
        let c = v[i];
        let u = c as u32;
        if !(48 <= u && u <= 57) {
            proof {
                let d = v@.subrange(lo as int, hi as int);
                assert(d[i - lo] == c);
                assert(!is_digit(d[i - lo]));
            }
            return false;
        }
        i = i + 1;
    }
    proof {
        let d = v@.subrange(lo as int, hi as int);
        assert forall|j: int| 0 <= j < d.len() implies is_digit(#[trigger] d[j]) by {
            assert(d[j] == v@[lo + j]);
        }
    }
    true
}

/// The position of the first exponent mark in `t[start..]`, or the end of `t`.
fn find_mark(t: &Vec<char>, start: usize) -> (k: usize)
    requires
        start <= t@.len(),
    ensures
        start <= k <= t@.len(),
        mark_from(t@.subrange(start as int, t@.len() as int), 0) == (if k < t@.len() {
            Some(k - start)
        } else {
            None::<int>
        }),
{
    let n = t.len();
    let mut k = start;
    while k < n && !(t[k] == 'e' || t[k] == 'E')
        invariant
            start <= k <= n == t@.len(),
            forall|j: int| start <= j < k ==> !is_mark(#[trigger] t@[j]),
        decreases n - k,
    {
        k = k + 1;
    }
    proof {
        let s = t@.subrange(start as int, n as int);
        assert forall|j: int| 0 <= j < k - start implies !is_mark(#[trigger] s[j]) by {
            assert(s[j] == t@[start + j]);
        }
        if k < n {
            assert(s[k - start] == t@[k as int]);
        }
        lemma_mark(s, 0, k - start);
    }
    k
}

/// The exponent written after the mark at `k`.
fn read_exponent(t: &Vec<char>, k: usize) -> (r: Option<i64>)
    requires
        k < t@.len(),
    ensures
        match r {
            Some(e) => exponent_of(t@.subrange(k + 1, t@.len() as int)) == Some(e as int) && -9999
                <= e <= 9999,
            None => exponent_of(t@.subrange(k + 1, t@.len() as int)) is None,
        },
{
    let n = t.len();
    let signed = k + 1 < n && (t[k + 1] == '+' || t[k + 1] == '-');
    let dstart = if signed {
        k + 2
    } else {
        k + 1
    };
    proof {
        let x = t@.subrange(k + 1, n as int);
        if signed {
            assert(x.skip(1) =~= t@.subrange(dstart as int, n as int));
        }
    }
    match short_digits(t, dstart, n) {
        Some(v) => {
            assert(v < 10000);
            if signed && t[k + 1] == '-' {
                Some(-(v as i64))
            } else {
                Some(v as i64)
            }
        },
        None => None,
    }
}

/// Read a number's text as `sci` does: the sign, the digits, and the power of ten.
#[verifier::rlimit(40)]
pub fn read_number(t: &Vec<char>) -> (r: Option<(bool, Vec<char>, i128)>)
    ensures
        match r {
            Some((neg, digits, e)) => {
                &&& sci(t@) == Some((neg, digits@, e as int))
                &&& e <= 9999
                &&& -9998 <= e + digits@.len()
                &&& digits@.len() <= t@.len()
            },
            None => sci(t@) is None,
        },
{
    let n = t.len();
    let neg = n > 0 && t[0] == '-';
    let start: usize = if neg {
        1
    } else {
        0
    };
    let ghost s = if neg {
        t@.skip(1)
    } else {
        t@
    };
    assert(s =~= t@.subrange(start as int, n as int));
    let k = find_mark(t, start);
    let ghost mant = t@.subrange(start as int, k as int);
    assert(mant =~= (if k < n {
        s.take(k - start)
    } else {
        s
    }));
    proof {
        if k < n {
            assert(s.skip(k - start + 1) =~= t@.subrange(k + 1, n as int));
        }
    }
    let dot = find_char(t, start, k, '.');
    let ip_end = match dot {
        Some(p) => p,
        None => k,
    };
    let fp_start = match dot {
        Some(p) => p + 1,
        None => k,
    };
    assert(t@.subrange(start as int, ip_end as int) =~= (match first_index(mant, '.') {
        Some(q) => mant.take(q),
        None => mant,
    }));
    assert(t@.subrange(fp_start as int, k as int) =~= (match first_index(mant, '.') {
        Some(q) => mant.skip(q + 1),
        None => Seq::<char>::empty(),
    }));
    if ip_end == start || !all_digits(t, start, ip_end) {
        return None;
    }
    if dot.is_some() && fp_start == k {
        return None;
    }
    if !all_digits(t, fp_start, k) {
        return None;
    }
    let ex: i64 = if k < n {
        match read_exponent(t, k) {
            Some(e) => e,
            None => {
                return None;
            },
        }
    } else {
        0
    };
    let mut digits = copy_range(t, start, ip_end);
    let frac = copy_range(t, fp_start, k);
    crate::text::extend_chars(&mut digits, &frac);
    let e: i128 = ex as i128 - (k - fp_start) as i128;
    proof {
        let fp = t@.subrange(fp_start as int, k as int);
        let ip = t@.subrange(start as int, ip_end as int);
        assert(digits@ =~= ip + fp);
        assert(mark_from(s, 0) == (if k < n {
            Some(k - start)
        } else {
            None::<int>
        }));
        let exs = match mark_from(s, 0) {
            Some(q) => exponent_of(s.skip(q + 1)),
            None => Some(0int),
        };
        assert(exs == Some(ex as int));
        assert(e == ex - fp.len());
    }
    Some((neg, digits, e))
}

// ---------------------------------------------------------------------------------------
// The value of a string of digits
// ---------------------------------------------------------------------------------------

proof fn lemma_zeros_value(k: int)
    requires
        k >= 0,
    ensures
        digits_value(zeros(k)) == 0,
        digits_ok(zeros(k)),
    decreases k,
{
    if k > 0 {
        assert(zeros(k).drop_last() =~= zeros(k - 1));
        lemma_zeros_value(k - 1);
    }
}

/// Leading zeros do not change the number that digits write.
proof fn lemma_zero_prefix(k: int, s: Seq<char>)
    requires
        k >= 0,
    ensures
        digits_value(zeros(k) + s) == digits_value(s),
    decreases s.len(),
{
    if s.len() == 0 {
        assert(zeros(k) + s =~= zeros(k));
        lemma_zeros_value(k);
    } else {
        assert((zeros(k) + s).drop_last() =~= zeros(k) + s.drop_last());
        lemma_zero_prefix(k, s.drop_last());
    }
}

/// Of two digit strings of one length, the one with the smaller digit at the first place
/// where they differ writes the smaller number.
proof fn lemma_lex(a: Seq<char>, b: Seq<char>, i: int)
    requires
        a.len() == b.len(),
        0 <= i < a.len(),
        digits_ok(a),
        digits_ok(b),
        forall|j: int| 0 <= j < i ==> (a[j] as u32) == (b[j] as u32),
        (a[i] as u32) < (b[i] as u32),
    ensures
        digits_value(a) < digits_value(b),
    decreases a.len(),
{
    let n = a.len();
    assert(is_digit(a[n - 1]) && is_digit(b[n - 1]));
    if i == n - 1 {
        lemma_same_value(a.drop_last(), b.drop_last());
    } else {
        let a2 = a.drop_last();
        let b2 = b.drop_last();
        assert(digits_ok(a2) && digits_ok(b2)) by {
            assert forall|j: int| 0 <= j < a2.len() implies is_digit(#[trigger] a2[j]) && is_digit(
                b2[j],
            ) by {
                assert(a2[j] == a[j] && b2[j] == b[j]);
            }
        }
        lemma_lex(a2, b2, i);
    }
}

/// Digits with the same codes write the same number.
proof fn lemma_same_value(a: Seq<char>, b: Seq<char>)
    requires
        a.len() == b.len(),
        forall|j: int| 0 <= j < a.len() ==> (a[j] as u32) == (b[j] as u32),
    ensures
        digits_value(a) == digits_value(b),
    decreases a.len(),
{
    if a.len() > 0 {
        lemma_same_value(a.drop_last(), b.drop_last());
    }
}

/// How one number compares with another.
pub enum Order {
    Below,
    Same,
    Above,
}

/// The `i`-th digit of `d` followed by `z` zeros, the whole padded on the left with zeros
/// to the length `len`.
pub open spec fn padded(d: Seq<char>, z: int, len: int) -> Seq<char> {
    zeros(len - d.len() - z) + d + zeros(z)
}

/// Compare the numbers written by `a` followed by `za` zeros and by `b` followed by `zb`
/// zeros.
fn compare_scaled(a: &Vec<char>, za: u128, b: &Vec<char>, zb: u128) -> (c: Order)
    requires
        digits_ok(a@),
        digits_ok(b@),
        za < 0x1_0000_0000_0000_0000_0000,
        zb < 0x1_0000_0000_0000_0000_0000,
    ensures
        ({
            let x = digits_value(a@ + zeros(za as int));
            let y = digits_value(b@ + zeros(zb as int));
            match c {
                Order::Below => x < y,
                Order::Same => x == y,
                Order::Above => x > y,
            }
        }),
{
    let la: u128 = a.len() as u128 + za;
    let lb: u128 = b.len() as u128 + zb;
    let len: u128 = if la < lb {
        lb
    } else {
        la
    };
    let ghost pa = padded(a@, za as int, len as int);
    let ghost pb = padded(b@, zb as int, len as int);
    proof {
        lemma_zeros_value(za as int);
        lemma_zeros_value(zb as int);
        lemma_zeros_value((len - la) as int);
        lemma_zeros_value((len - lb) as int);
        assert(pa =~= zeros((len - la) as int) + (a@ + zeros(za as int)));
        assert(pb =~= zeros((len - lb) as int) + (b@ + zeros(zb as int)));
        lemma_zero_prefix((len - la) as int, a@ + zeros(za as int));
        lemma_zero_prefix((len - lb) as int, b@ + zeros(zb as int));
        assert(digits_ok(pa)) by {
            assert forall|j: int| 0 <= j < pa.len() implies is_digit(#[trigger] pa[j]) by {
                if (len - la) <= j < (len - la) + a@.len() {
                    assert(pa[j] == a@[j - (len - la)]);
                }
            }
        }
        assert(digits_ok(pb)) by {
            assert forall|j: int| 0 <= j < pb.len() implies is_digit(#[trigger] pb[j]) by {
                if (len - lb) <= j < (len - lb) + b@.len() {
                    assert(pb[j] == b@[j - (len - lb)]);
                }
            }
        }
    }
    let mut i: u128 = 0;
    while i < len
        invariant
            i <= len,
            la == a@.len() + za,
            lb == b@.len() + zb,
            len == if la < lb {
                lb
            } else {
                la
            },
            pa == padded(a@, za as int, len as int),
            pb == padded(b@, zb as int, len as int),
            pa.len() == len,
            pb.len() == len,
            digits_ok(pa),
            digits_ok(pb),
            digits_value(pa) == digits_value(a@ + zeros(za as int)),
            digits_value(pb) == digits_value(b@ + zeros(zb as int)),
            forall|j: int| 0 <= j < i ==> (pa[j] as u32) == (pb[j] as u32),
        decreases len - i,
    {
        let ca = if i < len - la || i - (len - la) >= a.len() as u128 {
            '0'
        } else {
            a[(i - (len - la)) as usize]
        };
        let cb = if i < len - lb || i - (len - lb) >= b.len() as u128 {
            '0'
        } else {
            b[(i - (len - lb)) as usize]
        };
        assert(ca == pa[i as int]);
        assert(cb == pb[i as int]);
        let ua = ca as u32;
        let ub = cb as u32;
        if ua != ub {
            if ua < ub {
                proof {
                    lemma_lex(pa, pb, i as int);
                }
                return Order::Below;
            } else {
                proof {
                    lemma_lex(pb, pa, i as int);
                }
                return Order::Above;
            }
        }
        i = i + 1;
    }
    proof {
        lemma_same_value(pa, pb);
    }
    Order::Same
}

// ---------------------------------------------------------------------------------------
// What a number is
// ---------------------------------------------------------------------------------------

/// The magnitude of a read number at the scale 10^`m` (`m` no more than its exponent): the
/// number its digits write with the zeros of the scale appended.
pub open spec fn scaled(x: (bool, Seq<char>, int), m: int) -> int {
    digits_value(x.1 + zeros(x.2 - m)) as int
}

/// A read number at the scale 10^`m`, with its sign.
pub open spec fn signed_at(x: (bool, Seq<char>, int), m: int) -> int {
    if x.0 {
        -scaled(x, m)
    } else {
        scaled(x, m)
    }
}

/// Whether the number the text `a` writes is below the one `b` writes: the two are compared
/// exactly, at the smaller of their two powers of ten. False when either is not a number.
pub open spec fn num_below(a: Seq<char>, b: Seq<char>) -> bool {
    match (sci(a), sci(b)) {
        (Some(x), Some(y)) => {
            let m = if x.2 <= y.2 {
                x.2
            } else {
                y.2
            };
            signed_at(x, m) < signed_at(y, m)
        },
        _ => false,
    }
}

/// Whether the number the text `a` writes is below the one `b` writes.
pub fn below(a: &Vec<char>, b: &Vec<char>) -> (r: bool)
    ensures
        r == num_below(a@, b@),
{
    let a_len = a.len();
    let b_len = b.len();
    let (na, da, ea) = match read_number(a) {
        Some(x) => x,
        None => {
            return false;
        },
    };
    let (nb, db, eb) = match read_number(b) {
        Some(x) => x,
        None => {
            return false;
        },
    };
    let m: i128 = if ea <= eb {
        ea
    } else {
        eb
    };
    assert(-9998 - a_len <= ea <= 9999);
    assert(-9998 - b_len <= eb <= 9999);
    let za: u128 = (ea - m) as u128;
    let zb: u128 = (eb - m) as u128;
    proof {
        assert(digits_ok(da@) && digits_ok(db@)) by {
            reveal_digits(a@);
            reveal_digits(b@);
        }
    }
    let empty: Vec<char> = Vec::new();
    proof {
        lemma_zeros_value(za as int);
        lemma_zeros_value(zb as int);
        assert(empty@ + zeros(0) =~= zeros(0));
        lemma_zeros_value(0);
    }
    let c = compare_scaled(&da, za, &db, zb);
    let a_zero = match compare_scaled(&da, za, &empty, 0) {
        Order::Same => true,
        _ => false,
    };
    let b_zero = match compare_scaled(&db, zb, &empty, 0) {
        Order::Same => true,
        _ => false,
    };
    if !na && !nb {
        match c {
            Order::Below => true,
            _ => false,
        }
    } else if na && nb {
        match c {
            Order::Above => true,
            _ => false,
        }
    } else if na {
        !(a_zero && b_zero)
    } else {
        false
    }
}

/// The digits of a read number are digits.
proof fn reveal_digits(t: Seq<char>)
    ensures
        sci(t) matches Some(x) ==> digits_ok(x.1),
{
    if let Some(x) = sci(t) {
        let neg = t.len() > 0 && t[0] == '-';
        let s = if neg {
            t.skip(1)
        } else {
            t
        };
        let mant = match mark_from(s, 0) {
            Some(k) => s.take(k),
            None => s,
        };
        let d = first_index(mant, '.');
        let ip = match d {
            Some(k) => mant.take(k),
            None => mant,
        };
        let fp = match d {
            Some(k) => mant.skip(k + 1),
            None => Seq::<char>::empty(),
        };
        assert(x.1 == ip + fp);
        assert forall|j: int| 0 <= j < x.1.len() implies is_digit(#[trigger] x.1[j]) by {
            if j < ip.len() {
                assert(x.1[j] == ip[j]);
            } else {
                assert(x.1[j] == fp[j - ip.len()]);
            }
        }
    }
}

/// Whether a read number is whole: every digit it writes below the units is a zero.
pub open spec fn whole_at(x: (bool, Seq<char>, int)) -> bool {
    forall|i: int| 0 <= i && x.1.len() + x.2 <= i < x.1.len() ==> #[trigger] x.1[i] == '0'
}

/// Whether the text writes a whole number.
pub open spec fn is_whole(t: Seq<char>) -> bool {
    match sci(t) {
        Some(x) => whole_at(x),
        None => false,
    }
}

/// Whether the text writes a whole number.
pub fn whole(t: &Vec<char>) -> (b: bool)
    ensures
        b == is_whole(t@),
{
    let (neg, d, e) = match read_number(t) {
        Some(x) => x,
        None => {
            return false;
        },
    };
    let n = d.len();
    let start: usize = if (n as i128) + e <= 0 {
        0
    } else if e >= 0 {
        n
    } else {
        ((n as i128) + e) as usize
    };
    let mut j = start;
    while j < n
        invariant
            start <= j <= n == d@.len(),
            sci(t@) == Some((neg, d@, e as int)),
            start as int == if d@.len() + e <= 0 {
                0
            } else if e >= 0 {
                d@.len() as int
            } else {
                d@.len() + e
            },
            forall|k: int| start <= k < j ==> #[trigger] d@[k] == '0',
        decreases n - j,
    {
        if d[j] != '0' {
            proof {
                let x = (neg, d@, e as int);
                assert(x.1.len() + x.2 <= j < x.1.len() && x.1[j as int] != '0');
            }
            return false;
        }
        j = j + 1;
    }
    proof {
        let x = (neg, d@, e as int);
        assert forall|i: int| 0 <= i && x.1.len() + x.2 <= i < x.1.len() implies #[trigger] x.1[i]
            == '0' by {
            assert(x.1.len() == n);
            assert(x.2 == e);
            if e >= 0 {
                assert(false);
            } else if n + e <= 0 {
                assert(start == 0);
            } else {
                assert(start == n + e);
            }
            assert(start <= i);
            assert(i < j);
        }
    }
    true
}

/// The digits a read number writes above the units, its whole part.
pub open spec fn int_digits(x: (bool, Seq<char>, int)) -> Seq<char> {
    if x.2 >= 0 {
        x.1 + zeros(x.2)
    } else if x.1.len() + x.2 > 0 {
        x.1.take(x.1.len() + x.2)
    } else {
        Seq::empty()
    }
}

/// The count a number's text writes, as a length keyword reads it: a whole number from zero
/// up to 2^64, where 2^64 itself counts as `u64::MAX`.
pub open spec fn count_of_text(t: Seq<char>) -> Option<u64> {
    match sci(t) {
        Some(x) => {
            let v = digits_value(int_digits(x));
            if whole_at(x) && (!x.0 || v == 0) && v <= 0x1_0000_0000_0000_0000 {
                Some(
                    if v > u64::MAX {
                        u64::MAX
                    } else {
                        v as u64
                    },
                )
            } else {
                None
            }
        },
        None => None,
    }
}

/// Above every count: 2^64 + 1.
pub open spec fn cap() -> nat {
    0x1_0000_0000_0000_0001
}

/// The number written by the first `take` digits of `d` followed by `z` zeros, or `cap()`
/// when that is larger.
fn capped_value(d: &Vec<char>, take: usize, z: usize) -> (r: u128)
    requires
        take <= d@.len(),
        digits_ok(d@),
        z <= 10000,
    ensures
        r == if digits_value(d@.take(take as int) + zeros(z as int)) < cap() {
            digits_value(d@.take(take as int) + zeros(z as int))
        } else {
            cap()
        },
{
    let ghost w = d@.take(take as int) + zeros(z as int);
    let total: u128 = take as u128 + z as u128;
    let mut acc: u128 = 0;
    let mut i: u128 = 0;
    assert(w.take(0) =~= Seq::<char>::empty());
    while i < total
        invariant
            i <= total == take + z,
            take <= d@.len(),
            digits_ok(d@),
            w == d@.take(take as int) + zeros(z as int),
            acc == if digits_value(w.take(i as int)) < cap() {
                digits_value(w.take(i as int))
            } else {
                cap()
            },
        decreases total - i,
    {
        let c = if i < take as u128 {
            d[i as usize]
        } else {
            '0'
        };
        assert(c == w[i as int]);
        assert(is_digit(c)) by {
            if i < take {
                assert(is_digit(d@[i as int]));
            }
        }
        proof {
            assert(w.take(i + 1).drop_last() =~= w.take(i as int));
        }
        let cu: u32 = c as u32;
        assert(48 <= cu <= 57);
        let u: u32 = cu - 48;
        if acc < 0x1_0000_0000_0000_0001 {
            let next = acc * 10 + u as u128;
            acc = if next < 0x1_0000_0000_0000_0001 {
                next
            } else {
                0x1_0000_0000_0000_0001
            };
        }
        i = i + 1;
    }
    assert(w.take(total as int) =~= w);
    acc
}

/// The count a number's text writes, as a length keyword reads it.
pub fn count_text(t: &Vec<char>) -> (r: Option<u64>)
    ensures
        r == count_of_text(t@),
{
    let (neg, d, e) = match read_number(t) {
        Some(x) => x,
        None => {
            return None;
        },
    };
    if !whole(t) {
        return None;
    }
    proof {
        reveal_digits(t@);
    }
    let n = d.len();
    let v = if e >= 0 {
        capped_value(&d, n, e as usize)
    } else {
        let take: usize = if (n as i128) + e <= 0 {
            0
        } else {
            ((n as i128) + e) as usize
        };
        assert(d@.take(take as int) + zeros(0) =~= int_digits((neg, d@, e as int)));
        capped_value(&d, take, 0)
    };
    proof {
        if e >= 0 {
            assert(d@.take(n as int) =~= d@);
        }
    }
    if neg && v != 0 {
        return None;
    }
    if v > 0x1_0000_0000_0000_0000 {
        None
    } else if v > 0xffff_ffff_ffff_ffff {
        Some(0xffff_ffff_ffff_ffff)
    } else {
        Some(v as u64)
    }
}

// ---------------------------------------------------------------------------------------
// A number in plain decimal
// ---------------------------------------------------------------------------------------

/// `s` without its leading zeros.
pub open spec fn lstrip0(s: Seq<char>) -> Seq<char>
    decreases s.len(),
{
    if s.len() > 0 && s[0] == '0' {
        lstrip0(s.skip(1))
    } else {
        s
    }
}

/// `s` without its trailing zeros.
pub open spec fn rstrip0(s: Seq<char>) -> Seq<char>
    decreases s.len(),
{
    if s.len() > 0 && s.last() == '0' {
        rstrip0(s.drop_last())
    } else {
        s
    }
}

/// How a number reads in plain decimal, as `f64`'s `Display` writes one: no exponent, no
/// leading zeros before the point (but a single `0`), no trailing zeros after it and no
/// point when nothing follows it, and a `-` for a negative sign. A text that is not a number
/// is kept as it is.
pub open spec fn plain(t: Seq<char>) -> Seq<char> {
    match sci(t) {
        Some(x) => {
            let d = x.1;
            let p = d.len() + x.2;
            let ip = if p <= 0 {
                Seq::empty()
            } else if p >= d.len() {
                d + zeros(p - d.len())
            } else {
                d.take(p)
            };
            let fp = if p >= d.len() {
                Seq::empty()
            } else if p <= 0 {
                zeros(-p) + d
            } else {
                d.skip(p)
            };
            let i = lstrip0(ip);
            let f = rstrip0(fp);
            (if x.0 {
                seq!['-']
            } else {
                Seq::empty()
            }) + (if i.len() == 0 {
                seq!['0']
            } else {
                i
            }) + (if f.len() == 0 {
                Seq::empty()
            } else {
                seq!['.'] + f
            })
        },
        None => t,
    }
}

proof fn lemma_lstrip(s: Seq<char>, i: int)
    requires
        0 <= i <= s.len(),
        forall|j: int| 0 <= j < i ==> s[j] == '0',
        i < s.len() ==> s[i] != '0',
    ensures
        lstrip0(s) == s.skip(i),
    decreases i,
{
    if i == 0 {
        assert(s.skip(0) =~= s);
    } else {
        lemma_lstrip(s.skip(1), i - 1);
        assert(s.skip(1).skip(i - 1) =~= s.skip(i));
    }
}

proof fn lemma_rstrip(s: Seq<char>, i: int)
    requires
        0 <= i <= s.len(),
        forall|j: int| i <= j < s.len() ==> s[j] == '0',
        i > 0 ==> s[i - 1] != '0',
    ensures
        rstrip0(s) == s.take(i),
    decreases s.len() - i,
{
    if i == s.len() {
        assert(s.take(i) =~= s);
    } else {
        lemma_rstrip(s.drop_last(), i);
        assert(s.drop_last().take(i) =~= s.take(i));
    }
}

/// `v` without its leading zeros.
fn strip_leading(v: &Vec<char>) -> (out: Vec<char>)
    ensures
        out@ == lstrip0(v@),
{
    let mut i: usize = 0;
    while i < v.len() && v[i] == '0'
        invariant
            i <= v@.len(),
            forall|j: int| 0 <= j < i ==> v@[j] == '0',
        decreases v@.len() - i,
    {
        i = i + 1;
    }
    proof {
        lemma_lstrip(v@, i as int);
        assert(v@.subrange(i as int, v@.len() as int) =~= v@.skip(i as int));
    }
    copy_range(v, i, v.len())
}

/// `v` without its trailing zeros.
fn strip_trailing(v: &Vec<char>) -> (out: Vec<char>)
    ensures
        out@ == rstrip0(v@),
{
    let mut i: usize = v.len();
    while i > 0 && v[i - 1] == '0'
        invariant
            i <= v@.len(),
            forall|j: int| i <= j < v@.len() ==> v@[j] == '0',
        decreases i,
    {
        i = i - 1;
    }
    proof {
        lemma_rstrip(v@, i as int);
        assert(v@.subrange(0, i as int) =~= v@.take(i as int));
    }
    copy_range(v, 0, i)
}

/// Append `k` zeros to `out`.
fn push_zeros(out: &mut Vec<char>, k: usize)
    ensures
        final(out)@ == old(out)@ + zeros(k as int),
{
    let ghost start = out@;
    let mut i: usize = 0;
    while i < k
        invariant
            i <= k,
            out@ == start + zeros(i as int),
        decreases k - i,
    {
        out.push('0');
        i = i + 1;
        assert(out@ =~= start + zeros(i as int));
    }
}

/// How a number reads in plain decimal, as `f64`'s `Display` writes one.
pub fn plain_text(t: &Vec<char>) -> (out: Vec<char>)
    ensures
        out@ == plain(t@),
{
    let (neg, d, e) = match read_number(t) {
        Some(x) => x,
        None => {
            return copy_range(t, 0, t.len());
        },
    };
    proof {
        assert(t@.subrange(0, t@.len() as int) =~= t@);
    }
    let n = d.len();
    let p: i128 = n as i128 + e;
    let mut ip: Vec<char> = Vec::new();
    let mut fp: Vec<char> = Vec::new();
    if p <= 0 {
        push_zeros(&mut fp, (0 - p) as usize);
        crate::text::extend_chars(&mut fp, &d);
    } else if p >= n as i128 {
        crate::text::extend_chars(&mut ip, &d);
        push_zeros(&mut ip, (p - n as i128) as usize);
    } else {
        ip = copy_range(&d, 0, p as usize);
        fp = copy_range(&d, p as usize, n);
    }
    proof {
        if p <= 0 {
            assert(ip@ =~= Seq::<char>::empty());
        } else if p >= n {
            assert(fp@ =~= Seq::<char>::empty());
        } else {
            assert(ip@ =~= d@.take(p as int));
            assert(fp@ =~= d@.skip(p as int));
        }
    }
    let i = strip_leading(&ip);
    let f = strip_trailing(&fp);
    let mut out: Vec<char> = Vec::new();
    if neg {
        out.push('-');
    }
    if i.len() == 0 {
        out.push('0');
    } else {
        crate::text::extend_chars(&mut out, &i);
    }
    if f.len() > 0 {
        out.push('.');
        crate::text::extend_chars(&mut out, &f);
    }
    proof {
        let sign = if neg {
            seq!['-']
        } else {
            Seq::<char>::empty()
        };
        let ipart = if i@.len() == 0 {
            seq!['0']
        } else {
            i@
        };
        let fpart = if f@.len() == 0 {
            Seq::<char>::empty()
        } else {
            seq!['.'] + f@
        };
        assert(out@ =~= sign + ipart + fpart);
    }
    out
}

/// No number is below itself.
pub proof fn law_no_number_is_below_itself(a: Seq<char>)
    ensures
        !num_below(a, a),
{
}

/// Of two numbers, at most one is below the other.
pub proof fn law_below_is_one_way(a: Seq<char>, b: Seq<char>)
    ensures
        !(num_below(a, b) && num_below(b, a)),
{
}

} // verus!
