//! Numeric fields of a line: non-negative counts, and decimals held exactly
//! in thousandths.

use vstd::prelude::*;

verus! {

/// The largest count a field may declare.
pub const MAX_COUNT: u64 = 4294967295;

/// Whole units of a decimal stay below this bound.
pub const WHOLE_LIMIT: u64 = 1000000000;

pub open spec fn is_space(b: u8) -> bool {
    b == 32u8 || b == 9u8 || b == 13u8
}

pub open spec fn is_digit(b: u8) -> bool {
    48u8 <= b <= 57u8
}

/// The first position at or after `i` that holds no blank.
pub open spec fn skip_blanks(s: Seq<u8>, i: int) -> int
    decreases s.len() - i,
{
    if 0 <= i < s.len() && is_space(s[i]) {
        skip_blanks(s, i + 1)
    } else {
        i
    }
}

/// The end of `s[lo..j]` once trailing blanks are dropped.
pub open spec fn trim_blanks_end(s: Seq<u8>, lo: int, j: int) -> int
    decreases j - lo,
{
    if j > lo && is_space(s[j - 1]) {
        trim_blanks_end(s, lo, j - 1)
    } else {
        j
    }
}

/// The line without its leading and trailing blanks.
pub open spec fn token(s: Seq<u8>) -> Seq<u8> {
    let a = skip_blanks(s, 0);
    s.subrange(a, trim_blanks_end(s, a, s.len() as int))
}

pub open spec fn all_digits(t: Seq<u8>) -> bool {
    forall|i: int| 0 <= i < t.len() ==> is_digit(#[trigger] t[i])
}

/// The value of a run of decimal digits.
pub open spec fn digits_value(t: Seq<u8>) -> int
    decreases t.len(),
{
    if t.len() == 0 {
        0
    } else {
        digits_value(t.drop_last()) * 10 + (t.last() - 48)
    }
}

/// A count: one or more digits, at most `MAX_COUNT`.
pub open spec fn count_of(line: Seq<u8>) -> Option<int> {
    let t = token(line);
    if t.len() >= 1 && all_digits(t) && digits_value(t) <= MAX_COUNT {
        Some(digits_value(t))
    } else {
        None
    }
}

/// The position of the first `.` at or after `i`, or the length.
pub open spec fn dot_at(t: Seq<u8>, i: int) -> int
    decreases t.len() - i,
{
    if 0 <= i < t.len() && t[i] != 46u8 {
        dot_at(t, i + 1)
    } else {
        i
    }
}

/// The value in thousandths of the digits after the point: the first three,
/// padded with zeros.
pub open spec fn fraction_value(f: Seq<u8>) -> int {
    if f.len() >= 3 {
        digits_value(f.subrange(0, 3))
    } else if f.len() == 2 {
        digits_value(f) * 10
    } else if f.len() == 1 {
        digits_value(f) * 100
    } else {
        0
    }
}

/// A decimal: an optional sign, digits, and optionally a point followed by
/// digits; at least one digit in all, and fewer than `WHOLE_LIMIT` whole
/// units. Its value is in thousandths; further fraction digits are dropped.
pub open spec fn decimal_of(line: Seq<u8>) -> Option<int> {
    let t = token(line);
    let signed = t.len() >= 1 && (t[0] == 43u8 || t[0] == 45u8);
    let body = if signed {
        t.subrange(1, t.len() as int)
    } else {
        t
    };
    let d = dot_at(body, 0);
    let whole = body.subrange(0, d);
    let frac = if d < body.len() {
        body.subrange(d + 1, body.len() as int)
    } else {
        Seq::empty()
    };
    if all_digits(whole) && all_digits(frac) && whole.len() + frac.len() >= 1 && digits_value(whole)
        < WHOLE_LIMIT {
        let magnitude = digits_value(whole) * 1000 + fraction_value(frac);
        Some(
            if signed && t[0] == 45u8 {
                -magnitude
            } else {
                magnitude
            },
        )
    } else {
        None
    }
}

proof fn lemma_digits_step(t: Seq<u8>, i: int)
    requires
        0 <= i < t.len(),
    ensures
        digits_value(t.subrange(0, i + 1)) == digits_value(t.subrange(0, i)) * 10 + (t[i] - 48),
{
    assert(t.subrange(0, i + 1).drop_last() =~= t.subrange(0, i));
}

proof fn lemma_digits_mono(t: Seq<u8>, i: int, j: int)
    requires
        0 <= i <= j <= t.len(),
        all_digits(t),
    ensures
        digits_value(t.subrange(0, i)) <= digits_value(t.subrange(0, j)),
        digits_value(t.subrange(0, j)) >= 0,
    decreases j,
{
    if j > 0 {
        lemma_digits_step(t, j - 1);
        assert(is_digit(t[j - 1]));
        if i < j {
            lemma_digits_mono(t, i, j - 1);
        } else {
            lemma_digits_mono(t, j - 1, j - 1);
        }
    } else {
        assert(t.subrange(0, 0).len() == 0);
    }
}

/// Reads `s[lo..hi]` as digits whose value is at most `bound`.
fn read_digits(s: &[u8], lo: usize, hi: usize, bound: u64) -> (r: Option<u64>)
    requires
        lo <= hi <= s@.len(),
        bound <= MAX_COUNT,
    ensures
        r is Some <==> all_digits(s@.subrange(lo as int, hi as int)) && digits_value(
            s@.subrange(lo as int, hi as int),
        ) <= bound,
        r matches Some(v) ==> v == digits_value(s@.subrange(lo as int, hi as int)),
{
    let ghost t = s@.subrange(lo as int, hi as int);
    let mut acc: u64 = 0;
    let mut i = lo;
    while i < hi
        invariant
            lo <= i <= hi <= s@.len(),
            t == s@.subrange(lo as int, hi as int),
            all_digits(t.subrange(0, i - lo)),
            acc == digits_value(t.subrange(0, i - lo)),
            acc <= bound,
            bound <= MAX_COUNT,
        decreases hi - i,
    {
        let b = s[i];
        assert(t[i - lo] == b);
        if b < 48 || b > 57 {
            assert(!is_digit(t[i - lo]));
            return None;
        }
        proof {
            lemma_digits_step(t, i - lo);
        }
        let next = acc * 10 + (b - 48) as u64;
        assert(all_digits(t.subrange(0, i - lo + 1))) by {
            assert forall|k: int| 0 <= k < i - lo + 1 implies is_digit(
                #[trigger] t.subrange(0, i - lo + 1)[k],
            ) by {
                if k < i - lo {
                    assert(t.subrange(0, i - lo + 1)[k] == t.subrange(0, i - lo)[k]);
                }
            }
        }
        if next > bound {
            proof {
                if all_digits(t) {
                    lemma_digits_mono(t, i - lo + 1, t.len() as int);
                }
                assert(t.subrange(0, t.len() as int) =~= t);
            }
            return None;
        }
        acc = next;
        i += 1;
    }
    assert(t.subrange(0, hi - lo) =~= t);
    Some(acc)
}

/// The bounds of the line without its leading and trailing blanks.
fn token_bounds(s: &[u8]) -> (r: (usize, usize))
    ensures
        r.0 == skip_blanks(s@, 0),
        r.1 == trim_blanks_end(s@, r.0 as int, s@.len() as int),
        r.0 <= r.1 <= s@.len(),
{
    let n = s.len();
    let mut a: usize = 0;
    while a < n && (s[a] == 32 || s[a] == 9 || s[a] == 13)
        invariant
            a <= n == s@.len(),
            skip_blanks(s@, a as int) == skip_blanks(s@, 0),
        decreases n - a,
    {
        a += 1;
    }
    let mut b: usize = n;
    while b > a && (s[b - 1] == 32 || s[b - 1] == 9 || s[b - 1] == 13)
        invariant
            a <= b <= n == s@.len(),
            skip_blanks(s@, 0) == a,
            trim_blanks_end(s@, a as int, b as int) == trim_blanks_end(s@, a as int, n as int),
        decreases b - a,
    {
        b -= 1;
    }
    (a, b)
}

/// Reads a count field.
pub fn parse_count(line: &[u8]) -> (r: Option<u64>)
    ensures
        r is Some <==> count_of(line@) is Some,
        r matches Some(v) ==> count_of(line@) == Some(v as int),
{
    let (a, b) = token_bounds(line);
    assert(token(line@) == line@.subrange(a as int, b as int));
    if a == b {
        return None;
    }
    read_digits(line, a, b, MAX_COUNT)
}


fn check_digits(s: &[u8], lo: usize, hi: usize) -> (r: bool)
    requires
        lo <= hi <= s@.len(),
    ensures
        r == all_digits(s@.subrange(lo as int, hi as int)),
{
    let mut i = lo;
    while i < hi
        invariant
            lo <= i <= hi <= s@.len(),
            forall|k: int| lo <= k < i ==> is_digit(#[trigger] s@[k]),
        decreases hi - i,
    {
        if s[i] < 48 || s[i] > 57 {
            assert(!is_digit(s@.subrange(lo as int, hi as int)[i - lo]));
            return false;
        }
        i += 1;
    }
    assert forall|k: int| 0 <= k < hi - lo implies is_digit(
        #[trigger] s@.subrange(lo as int, hi as int)[k],
    ) by {
        assert(s@.subrange(lo as int, hi as int)[k] == s@[lo + k]);
    }
    true
}

/// Reads a decimal field, in thousandths.
pub fn parse_decimal(line: &[u8]) -> (r: Option<i64>)
    ensures
        r is Some <==> decimal_of(line@) is Some,
        r matches Some(v) ==> decimal_of(line@) == Some(v as int),
{
    let (a, b) = token_bounds(line);
    let ghost t = line@.subrange(a as int, b as int);
    assert(token(line@) == t);
    let mut p = a;
    let mut neg = false;
    if a < b && (line[a] == 43 || line[a] == 45) {
        neg = line[a] == 45;
        p = a + 1;
    }
    let ghost body = line@.subrange(p as int, b as int);
    assert(body =~= if t.len() >= 1 && (t[0] == 43u8 || t[0] == 45u8) {
        t.subrange(1, t.len() as int)
    } else {
        t
    });
    let mut d = p;
    while d < b && line[d] != 46
        invariant
            p <= d <= b <= line@.len(),
            body == line@.subrange(p as int, b as int),
            dot_at(body, d - p) == dot_at(body, 0),
        decreases b - d,
    {
        assert(body[d - p] == line@[d as int]);
        d += 1;
    }
    proof {
        if d < b {
            assert(body[d - p] == line@[d as int]);
        }
        assert(dot_at(body, d - p) == d - p);
        assert(body.subrange(0, d - p) =~= line@.subrange(p as int, d as int));
    }
    let fstart = if d < b {
        d + 1
    } else {
        b
    };
    let ghost frac = line@.subrange(fstart as int, b as int);
    assert(frac =~= if d - p < body.len() {
        body.subrange(d - p + 1, body.len() as int)
    } else {
        Seq::<u8>::empty()
    });
    let whole = match read_digits(line, p, d, WHOLE_LIMIT - 1) {
        Some(w) => w,
        None => {
            return None;
        },
    };
    if !check_digits(line, fstart, b) {
        return None;
    }
    if d - p + (b - fstart) < 1 {
        return None;
    }
    let fend = if b - fstart >= 3 {
        fstart + 3
    } else {
        b
    };
    proof {
        assert(line@.subrange(fstart as int, fend as int) =~= if frac.len() >= 3 {
            frac.subrange(0, 3)
        } else {
            frac
        });
        assert(all_digits(line@.subrange(fstart as int, fend as int))) by {
            assert forall|k: int| 0 <= k < fend - fstart implies is_digit(
                #[trigger] line@.subrange(fstart as int, fend as int)[k],
            ) by {
                assert(line@.subrange(fstart as int, fend as int)[k] == frac[k]);
            }
        }
        let f3 = line@.subrange(fstart as int, fend as int);
        lemma_digits_small(f3);
    }
    let f = match read_digits(line, fstart, fend, 999) {
        Some(f) => f,
        None => {
            return None;
        },
    };
    let scaled: u64 = if fend - fstart == 3 {
        f
    } else if fend - fstart == 2 {
        f * 10
    } else if fend - fstart == 1 {
        f * 100
    } else {
        0
    };
    let magnitude = (whole * 1000 + scaled) as i64;
    if neg {
        Some(-magnitude)
    } else {
        Some(magnitude)
    }
}

/// A decimal's value lies strictly within a thousand times `WHOLE_LIMIT`.
pub proof fn lemma_decimal_bound(line: Seq<u8>)
    requires
        decimal_of(line) is Some,
    ensures
        -(WHOLE_LIMIT * 1000) < decimal_of(line)->Some_0 < WHOLE_LIMIT * 1000,
{
    let t = token(line);
    let signed = t.len() >= 1 && (t[0] == 43u8 || t[0] == 45u8);
    let body = if signed {
        t.subrange(1, t.len() as int)
    } else {
        t
    };
    let d = dot_at(body, 0);
    let whole = body.subrange(0, d);
    let frac = if d < body.len() {
        body.subrange(d + 1, body.len() as int)
    } else {
        Seq::empty()
    };
    if frac.len() >= 3 {
        let f3 = frac.subrange(0, 3);
        assert forall|k: int| 0 <= k < f3.len() implies is_digit(#[trigger] f3[k]) by {
            assert(f3[k] == frac[k]);
        }
        lemma_digits_small(f3);
    } else {
        lemma_digits_small(frac);
    }
    assert(0 <= fraction_value(frac) <= 999);
    lemma_digits_mono(whole, 0, whole.len() as int);
    assert(whole.subrange(0, whole.len() as int) =~= whole);
}

proof fn lemma_digits_small(t: Seq<u8>)
    requires
        t.len() <= 3,
        all_digits(t),
    ensures
        0 <= digits_value(t) <= 999,
        t.len() == 2 ==> digits_value(t) <= 99,
        t.len() == 1 ==> digits_value(t) <= 9,
    decreases t.len(),
{
    if t.len() > 0 {
        let u = t.drop_last();
        assert forall|k: int| 0 <= k < u.len() implies is_digit(#[trigger] u[k]) by {
            assert(u[k] == t[k]);
        }
        assert(is_digit(t[t.len() - 1]));
        lemma_digits_small(u);
    }
}

/// The line without its leading and trailing blanks.
pub fn read_token(line: &[u8]) -> (r: Vec<u8>)
    ensures
        r@ == token(line@),
{
    let (a, b) = token_bounds(line);
    let mut r: Vec<u8> = Vec::new();
    let mut i = a;
    while i < b
        invariant
            a <= i <= b <= line@.len(),
            r@ == line@.subrange(a as int, i as int),
        decreases b - i,
    {
        r.push(line[i]);
        i += 1;
    }
    r
}

} // verus!
