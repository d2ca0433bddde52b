//! Splitting text into lines.

use vstd::prelude::*;

verus! {

/// The end of the line that starts at `i`: the next newline, or the end of text.
pub open spec fn line_end(t: Seq<u8>, i: int) -> int
    decreases t.len() - i,
{
    if 0 <= i < t.len() && t[i] != 10u8 {
        line_end(t, i + 1)
    } else {
        i
    }
}

proof fn lemma_line_end_bounds(t: Seq<u8>, i: int)
    requires
        0 <= i <= t.len(),
    ensures
        i <= line_end(t, i) <= t.len(),
        line_end(t, i) < t.len() ==> t[line_end(t, i)] == 10u8,
    decreases t.len() - i,
{
    if i < t.len() && t[i] != 10u8 {
        lemma_line_end_bounds(t, i + 1);
    }
}

/// The lines of `t` from position `i` on, without their newlines. Text after
/// the last newline forms a last line only if there is any.
pub open spec fn lines_from(t: Seq<u8>, i: int) -> Seq<Seq<u8>>
    decreases t.len() - i,
{
    let e = line_end(t, i);
    if i < 0 || i >= t.len() || e < i {
        seq![]
    } else if e >= t.len() {
        seq![t.subrange(i, e)]
    } else {
        seq![t.subrange(i, e)] + lines_from(t, e + 1)
    }
}

/// The lines of `t`.
pub open spec fn lines_of(t: Seq<u8>) -> Seq<Seq<u8>> {
    lines_from(t, 0)
}

/// The contents of each line.
pub open spec fn lines_view(v: Seq<Vec<u8>>) -> Seq<Seq<u8>> {
    v.map_values(|l: Vec<u8>| l@)
}

/// Splits the text into its lines.
pub fn split_lines(t: &[u8]) -> (r: Vec<Vec<u8>>)
    ensures
        lines_view(r@) == lines_of(t@),
{
    let n = t.len();
    let mut r: Vec<Vec<u8>> = Vec::new();
    let mut i: usize = 0;
    while i < n
        invariant
            n == t@.len(),
            i <= n,
            lines_view(r@) + lines_from(t@, i as int) == lines_of(t@),
        decreases n - i,
    {
        let mut e = i;
        while e < n && t[e] != 10
            invariant
                i <= e <= n == t@.len(),
                line_end(t@, e as int) == line_end(t@, i as int),
            decreases n - e,
        {
            e += 1;
        }
        let mut line: Vec<u8> = Vec::new();
        let mut k = i;
        while k < e
            invariant
                i <= k <= e <= n == t@.len(),
                line@ == t@.subrange(i as int, k as int),
            decreases e - k,
        {
            line.push(t[k]);
            k += 1;
        }
        proof {
            lemma_line_end_bounds(t@, i as int);
        }
        let ghost before = r@;
        r.push(line);
        proof {
            assert(lines_view(r@) =~= lines_view(before) + seq![t@.subrange(i as int, e as int)]);
        }
        if e == n {
            proof {
                assert(lines_from(t@, i as int) == seq![t@.subrange(i as int, e as int)]);
                assert(lines_from(t@, n as int) == Seq::<Seq<u8>>::empty());
                assert(lines_view(r@) + lines_from(t@, n as int) =~= lines_view(before)
                    + lines_from(t@, i as int));
            }
            i = n;
        } else {
            proof {
                assert(lines_from(t@, i as int) == seq![t@.subrange(i as int, e as int)]
                    + lines_from(t@, e + 1));
                assert(lines_view(r@) + lines_from(t@, e + 1) =~= lines_view(before) + lines_from(
                    t@,
                    i as int,
                ));
            }
            i = e + 1;
        }
    }
    assert(lines_from(t@, i as int) == Seq::<Seq<u8>>::empty());
    assert(lines_view(r@) + lines_from(t@, i as int) =~= lines_view(r@));
    r
}

} // verus!
