//! Splitting a byte stream into lines, and joining emitted lines back.
//!
//! A line ends at a line feed; the line feed is not part of the line, and a
//! single carriage return directly before it is stripped as well, so both
//! Unix and DOS line endings are accepted. A final line without a
//! terminator still counts (and keeps a trailing carriage return, having no
//! line feed after it). Joining writes every line followed by exactly one
//! line feed, which is the normalization the engine promises.

use vstd::prelude::*;
use vstd::slice::{slice_subrange, slice_to_vec};

verus! {

/// The byte views of a sequence of byte vectors.
pub open spec fn spec_views(vs: Seq<Vec<u8>>) -> Seq<Seq<u8>> {
    Seq::new(vs.len(), |i: int| vs[i]@)
}

/// Index of the first line feed at or after `from`, or the length of `s`.
pub open spec fn spec_nl_end(s: Seq<u8>, from: int) -> int
    decreases s.len() - from,
{
    if from < s.len() && s[from] != 10 {
        spec_nl_end(s, from + 1)
    } else {
        from
    }
}

/// The defining facts of [`spec_nl_end`]: it stays within `[from, s.len()]`,
/// no line feed stands before it, and a line feed stands at it if it is not
/// the end of `s`.
pub proof fn lemma_nl_end(s: Seq<u8>, from: int)
    requires
        0 <= from <= s.len(),
    ensures
        from <= spec_nl_end(s, from) <= s.len(),
        forall|k: int| from <= k < spec_nl_end(s, from) ==> s[k] != 10,
        spec_nl_end(s, from) < s.len() ==> s[spec_nl_end(s, from)] == 10,
    decreases s.len() - from,
{
    if from < s.len() && s[from] != 10 {
        lemma_nl_end(s, from + 1);
    }
}

/// Strip a single trailing carriage return from a raw line.
pub open spec fn spec_strip_cr(raw: Seq<u8>) -> Seq<u8> {
    if raw.len() > 0 && raw[raw.len() - 1] == 13 {
        raw.drop_last()
    } else {
        raw
    }
}

/// The lines of `s` from index `from` on. A stream that ends right at a
/// line feed has no further line after it; a non-empty rest always yields
/// at least one line, the last one unterminated and therefore not subject
/// to carriage-return stripping.
pub open spec fn spec_split_lines(s: Seq<u8>, from: int) -> Seq<Seq<u8>>
    decreases s.len() - from,
{
    if !(0 <= from < s.len()) {
        Seq::empty()
    } else {
        let e = spec_nl_end(s, from);
        proof {
            lemma_nl_end(s, from);
        }
        if e < s.len() {
            seq![spec_strip_cr(s.subrange(from, e))] + spec_split_lines(s, e + 1)
        } else {
            seq![s.subrange(from, e)]
        }
    }
}

/// Join lines into a byte stream, each line followed by one line feed.
pub open spec fn spec_unlines(lines: Seq<Seq<u8>>) -> Seq<u8>
    decreases lines.len(),
{
    if lines.len() == 0 {
        Seq::empty()
    } else {
        lines[0] + seq![10u8] + spec_unlines(lines.drop_first())
    }
}

/// Runtime splitter for [`spec_split_lines`].
pub fn split_lines(s: &[u8]) -> (r: Vec<Vec<u8>>)
    ensures
        spec_views(r@) == spec_split_lines(s@, 0),
{
    let n = s.len();
    let mut out: Vec<Vec<u8>> = Vec::new();
    let mut from: usize = 0;
    while from < n
        invariant
            from <= n,
            n == s@.len(),
            spec_views(out@) + spec_split_lines(s@, from as int) == spec_split_lines(s@, 0),
        decreases n - from,
    {
        let mut e: usize = from;
        while e < n && s[e] != 10
            invariant
                from <= e <= n,
                n == s@.len(),
                spec_nl_end(s@, from as int) == spec_nl_end(s@, e as int),
            decreases n - e,
        {
            e = e + 1;
        }
        proof {
            lemma_nl_end(s@, from as int);
        }
        let stop = if e < n && e > from && s[e - 1] == 13 {
            e - 1
        } else {
            e
        };
        let line = slice_to_vec(slice_subrange(s, from, stop));
        proof {
            if e < n {
                if e > from && s@[e as int - 1] == 13 {
                    assert(s@.subrange(from as int, e as int).drop_last() =~= s@.subrange(
                        from as int,
                        e as int - 1,
                    ));
                }
                assert(line@ == spec_strip_cr(s@.subrange(from as int, e as int)));
            }
        }
        let ghost out0 = out@;
        out.push(line);
        let next = if e < n {
            e + 1
        } else {
            n
        };
        proof {
            assert(spec_views(out@) =~= spec_views(out0).push(line@));
            if e < n {
                assert(spec_split_lines(s@, from as int) == seq![line@] + spec_split_lines(
                    s@,
                    next as int,
                ));
            } else {
                assert(spec_split_lines(s@, next as int) =~= Seq::<Seq<u8>>::empty());
                assert(spec_split_lines(s@, from as int) =~= seq![line@] + spec_split_lines(
                    s@,
                    next as int,
                ));
            }
            assert(spec_views(out0).push(line@) + spec_split_lines(s@, next as int) =~= spec_views(
                out0,
            ) + (seq![line@] + spec_split_lines(s@, next as int)));
        }
        from = next;
    }
    proof {
        assert(spec_split_lines(s@, from as int) =~= Seq::<Seq<u8>>::empty());
        assert(spec_views(out@) + spec_split_lines(s@, from as int) =~= spec_views(out@));
    }
    out
}

/// Runtime joiner for [`spec_unlines`].
pub fn unlines(lines: &Vec<Vec<u8>>) -> (r: Vec<u8>)
    ensures
        r@ == spec_unlines(spec_views(lines@)),
{
    let mut out: Vec<u8> = Vec::new();
    let n = lines.len();
    let mut k: usize = 0;
    proof {
        assert(spec_views(lines@).skip(0) =~= spec_views(lines@));
        assert(out@ + spec_unlines(spec_views(lines@)) =~= spec_unlines(spec_views(lines@)));
    }
    while k < n
        invariant
            k <= n,
            n == lines@.len(),
            out@ + spec_unlines(spec_views(lines@).skip(k as int)) == spec_unlines(
                spec_views(lines@),
            ),
        decreases n - k,
    {
        let ghost out0 = out@;
        let cur: &Vec<u8> = &lines[k];
        let m = cur.len();
        let mut b: usize = 0;
        while b < m
            invariant
                b <= m,
                m == cur@.len(),
                k < lines@.len(),
                cur@ == lines@[k as int]@,
                out@ == out0 + cur@.take(b as int),
            decreases m - b,
        {
            out.push(cur[b]);
            proof {
                assert(out0 + cur@.take(b as int) + seq![cur@[b as int]] =~= out0 + cur@.take(
                    b as int + 1,
                ));
            }
            b = b + 1;
        }
        out.push(10);
        proof {
            assert(cur@.take(m as int) =~= cur@);
            let views = spec_views(lines@);
            assert(views.skip(k as int).drop_first() =~= views.skip(k as int + 1));
            assert(views.skip(k as int)[0] == views[k as int]);
            assert(spec_unlines(views.skip(k as int)) == views[k as int] + seq![10u8]
                + spec_unlines(views.skip(k as int + 1)));
            assert(out@ + spec_unlines(views.skip(k as int + 1)) =~= out0 + spec_unlines(
                views.skip(k as int),
            ));
        }
        k = k + 1;
    }
    proof {
        assert(spec_views(lines@).skip(k as int) =~= Seq::<Seq<u8>>::empty());
        assert(out@ + spec_unlines(spec_views(lines@).skip(k as int)) =~= out@);
    }
    out
}

} // verus!
