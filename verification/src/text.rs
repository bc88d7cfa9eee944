//! Byte-level text utilities shared by the parsers: ASCII whitespace
//! classification, whitespace tokenization, line splitting and trimming.
//! The driver and engine files handled by this crate are plain ASCII, so
//! everything works on raw bytes.

use vstd::prelude::*;

verus! {

/// ASCII whitespace: space, tab, line feed, vertical tab, form feed,
/// carriage return.
pub open spec fn is_space(b: u8) -> bool {
    b == 32 || b == 9 || b == 10 || b == 11 || b == 12 || b == 13
}

/// The views of a sequence of byte vectors.
pub open spec fn views_of(ts: Seq<Vec<u8>>) -> Seq<Seq<u8>> {
    Seq::new(ts.len(), |k: int| ts[k]@)
}

/// The whitespace-separated tokens of `s`, in order: the maximal runs of
/// non-whitespace bytes.
pub open spec fn split_ws(s: Seq<u8>) -> Seq<Seq<u8>>
    decreases s.len(),
{
    if s.len() == 0 {
        Seq::empty()
    } else {
        let r = split_ws(s.drop_last());
        let b = s.last();
        if is_space(b) {
            r
        } else if s.len() >= 2 && !is_space(s[s.len() - 2]) {
            r.update(r.len() - 1, r.last().push(b))
        } else {
            r.push(seq![b])
        }
    }
}

fn is_space_byte(b: u8) -> (r: bool)
    ensures
        r == is_space(b),
{
    b == 32 || b == 9 || b == 10 || b == 11 || b == 12 || b == 13
}

/// Splits `data` into its whitespace-separated tokens.
pub fn split_whitespace_tokens(data: &Vec<u8>) -> (tokens: Vec<Vec<u8>>)
    ensures
        views_of(tokens@) == split_ws(data@),
{
    let mut tokens: Vec<Vec<u8>> = Vec::new();
    let mut cur: Vec<u8> = Vec::new();
    let mut i: usize = 0;
    while i < data.len()
        invariant
            i <= data@.len(),
            cur@.len() == 0 ==> views_of(tokens@) == split_ws(data@.take(i as int)),
            cur@.len() == 0 ==> (i == 0 || is_space(data@[i - 1])),
            cur@.len() > 0 ==> i > 0 && !is_space(data@[i - 1]) && views_of(tokens@).push(cur@)
                == split_ws(data@.take(i as int)),
        decreases data@.len() - i,
    {
        let b = data[i];
        proof {
            assert(data@.take(i + 1).drop_last() =~= data@.take(i as int));
            assert(data@.take(i + 1).last() == data@[i as int]);
        }
        if is_space_byte(b) {
            if cur.len() > 0 {
                let ghost old_tokens = tokens@;
                let ghost old_cur = cur@;
                tokens.push(cur);
                cur = Vec::new();
                proof {
                    assert(views_of(tokens@) =~= views_of(old_tokens).push(old_cur));
                }
            }
        } else {
            if cur.len() == 0 {
                cur.push(b);
                proof {
                    assert(split_ws(data@.take(i + 1)) =~= split_ws(data@.take(i as int)).push(
                        seq![b],
                    ));
                    assert(cur@ =~= seq![b]);
                }
            } else {
                let ghost old_cur = cur@;
                cur.push(b);
                proof {
                    let r = split_ws(data@.take(i as int));
                    assert(r == views_of(tokens@).push(old_cur));
                    assert(r.last() == old_cur);
                    assert(split_ws(data@.take(i + 1)) == r.update(r.len() - 1, old_cur.push(b)));
                    assert(r.update(r.len() - 1, old_cur.push(b)) =~= views_of(tokens@).push(
                        old_cur.push(b),
                    ));
                }
            }
        }
        i += 1;
    }
    proof {
        assert(data@.take(data@.len() as int) =~= data@);
    }
    if cur.len() > 0 {
        let ghost old_tokens = tokens@;
        let ghost old_cur = cur@;
        tokens.push(cur);
        proof {
            assert(views_of(tokens@) =~= views_of(old_tokens).push(old_cur));
        }
    }
    tokens
}

/// Copies the byte range `[lo, hi)` of `s`.
pub fn subvec(s: &Vec<u8>, lo: usize, hi: usize) -> (r: Vec<u8>)
    requires
        lo <= hi <= s@.len(),
    ensures
        r@ == s@.subrange(lo as int, hi as int),
{
    let mut r: Vec<u8> = Vec::new();
    let mut k: usize = lo;
    while k < hi
        invariant
            lo <= k <= hi <= s@.len(),
            r@ == s@.subrange(lo as int, k as int),
        decreases hi - k,
    {
        r.push(s[k]);
        k += 1;
        proof {
            assert(s@.subrange(lo as int, k as int) =~= s@.subrange(lo as int, k - 1).push(
                s@[k - 1],
            ));
        }
    }
    r
}

/// Copies a byte vector.
pub fn clone_bytes(s: &Vec<u8>) -> (r: Vec<u8>)
    ensures
        r@ == s@,
{
    let r = subvec(s, 0, s.len());
    proof {
        assert(s@.subrange(0, s@.len() as int) =~= s@);
    }
    r
}

/// Appends all of `src` to `out`.
pub fn push_bytes(out: &mut Vec<u8>, src: &Vec<u8>)
    ensures
        final(out)@ == old(out)@ + src@,
{
    let mut k: usize = 0;
    while k < src.len()
        invariant
            k <= src@.len(),
            out@ == old(out)@ + src@.take(k as int),
        decreases src@.len() - k,
    {
        out.push(src[k]);
        k += 1;
        proof {
            assert(old(out)@ + src@.take(k as int) =~= (old(out)@ + src@.take(k - 1)).push(
                src@[k - 1],
            ));
        }
    }
    proof {
        assert(src@.take(src@.len() as int) =~= src@);
    }
}

/// `s` without its leading whitespace.
pub open spec fn trim_start(s: Seq<u8>) -> Seq<u8>
    decreases s.len(),
{
    if s.len() > 0 && is_space(s.first()) {
        trim_start(s.drop_first())
    } else {
        s
    }
}

/// `s` without its trailing whitespace.
pub open spec fn trim_end(s: Seq<u8>) -> Seq<u8>
    decreases s.len(),
{
    if s.len() > 0 && is_space(s.last()) {
        trim_end(s.drop_last())
    } else {
        s
    }
}

/// `s` without leading or trailing whitespace.
pub open spec fn trim(s: Seq<u8>) -> Seq<u8> {
    trim_end(trim_start(s))
}

/// Trims leading and trailing ASCII whitespace from `s`.
pub fn trim_bytes(s: &Vec<u8>) -> (r: Vec<u8>)
    ensures
        r@ == trim(s@),
{
    let mut lo: usize = 0;
    proof {
        assert(s@.skip(0) =~= s@);
    }
    while lo < s.len() && is_space_byte(s[lo])
        invariant
            lo <= s@.len(),
            trim_start(s@.skip(lo as int)) == trim_start(s@),
        decreases s@.len() - lo,
    {
        proof {
            assert(s@.skip(lo as int).drop_first() =~= s@.skip(lo + 1));
        }
        lo += 1;
    }
    proof {
        assert(trim_start(s@) == s@.skip(lo as int));
    }
    let mut hi: usize = s.len();
    while hi > lo && is_space_byte(s[hi - 1])
        invariant
            lo <= hi <= s@.len(),
            trim_end(s@.subrange(lo as int, hi as int)) == trim_end(s@.skip(lo as int)),
        decreases hi,
    {
        proof {
            assert(s@.subrange(lo as int, hi as int).drop_last() =~= s@.subrange(
                lo as int,
                hi - 1,
            ));
        }
        hi -= 1;
    }
    proof {
        assert(s@.subrange(lo as int, s@.len() as int) =~= s@.skip(lo as int));
        assert(trim_end(s@.subrange(lo as int, hi as int)) == s@.subrange(lo as int, hi as int));
    }
    subvec(s, lo, hi)
}

/// Position of the first line feed in `s`, or `s.len()` when there is none.
pub open spec fn first_nl(s: Seq<u8>) -> nat
    decreases s.len(),
{
    if s.len() == 0 {
        0
    } else if s.first() == 10 {
        0
    } else {
        1 + first_nl(s.drop_first())
    }
}

proof fn lemma_first_nl_at(s: Seq<u8>, e: int)
    requires
        0 <= e <= s.len(),
        forall|k: int| 0 <= k < e ==> s[k] != 10,
        e == s.len() || s[e] == 10,
    ensures
        first_nl(s) == e,
    decreases s.len(),
{
    if s.len() == 0 {
    } else if s.first() == 10 {
        assert(e == 0);
    } else {
        assert(e >= 1);
        let t = s.drop_first();
        assert(forall|k: int| 0 <= k < e - 1 ==> t[k] == s[k + 1] && t[k] != 10);
        if e - 1 < t.len() {
            assert(t[e - 1] == s[e as int]);
        }
        lemma_first_nl_at(t, e - 1);
    }
}

/// A line with one trailing carriage return removed, as the engine log may
/// carry DOS line endings.
pub open spec fn strip_cr(l: Seq<u8>) -> Seq<u8> {
    if l.len() > 0 && l.last() == 13 {
        l.drop_last()
    } else {
        l
    }
}

/// The lines of `s`: split at line feeds, one trailing carriage return per
/// line removed, no final empty line for a trailing line feed.
pub open spec fn split_lines(s: Seq<u8>) -> Seq<Seq<u8>>
    decreases s.len(),
{
    if s.len() == 0 {
        Seq::empty()
    } else {
        let n = first_nl(s);
        if n >= s.len() {
            seq![strip_cr(s)]
        } else {
            seq![strip_cr(s.take(n as int))] + split_lines(s.skip(n + 1 as int))
        }
    }
}

/// Splits `data` into its lines.
pub fn split_lines_exec(data: &Vec<u8>) -> (lines: Vec<Vec<u8>>)
    ensures
        views_of(lines@) == split_lines(data@),
{
    let mut lines: Vec<Vec<u8>> = Vec::new();
    let mut pos: usize = 0;
    proof {
        assert(data@.skip(0) =~= data@);
        assert(views_of(lines@) =~= Seq::<Seq<u8>>::empty());
        assert(split_lines(data@) =~= views_of(lines@) + split_lines(data@.skip(0)));
    }
    while pos < data.len()
        invariant
            pos <= data@.len(),
            split_lines(data@) == views_of(lines@) + split_lines(data@.skip(pos as int)),
        decreases data@.len() - pos,
    {
        let mut end: usize = pos;
        while end < data.len() && data[end] != 10
            invariant
                pos <= end <= data@.len(),
                forall|k: int| pos <= k < end ==> data@[k] != 10,
            decreases data@.len() - end,
        {
            end += 1;
        }
        let ghost t = data@.skip(pos as int);
        proof {
            assert(forall|k: int| 0 <= k < end - pos ==> t[k] == data@[k + pos] && t[k] != 10);
            if end < data@.len() {
                assert(t[end - pos] == data@[end as int]);
            }
            lemma_first_nl_at(t, end - pos);
        }
        let mut hi: usize = end;
        if hi > pos && data[hi - 1] == 13 {
            hi = hi - 1;
        }
        let line = subvec(data, pos, hi);
        let ghost old_lines = lines@;
        lines.push(line);
        proof {
            assert(views_of(lines@) =~= views_of(old_lines).push(line@));
        }
        if end == data.len() {
            proof {
                assert(t =~= data@.subrange(pos as int, data@.len() as int));
                assert(first_nl(t) >= t.len());
                if t.len() > 0 && t.last() == 13 {
                    assert(t.drop_last() =~= data@.subrange(pos as int, end - 1));
                    assert(line@ =~= strip_cr(t));
                } else {
                    assert(line@ =~= strip_cr(t));
                }
                assert(split_lines(t) =~= seq![strip_cr(t)]);
            }
            pos = data.len();
            proof {
                assert(split_lines(data@.skip(pos as int)) =~= Seq::<Seq<u8>>::empty());
                assert(split_lines(data@) =~= views_of(lines@) + split_lines(
                    data@.skip(pos as int),
                ));
            }
        } else {
            proof {
                let n = first_nl(t) as int;
                assert(n == end - pos);
                assert(n < t.len());
                assert(t.take(n) =~= data@.subrange(pos as int, end as int));
                if end > pos && data@[end - 1] == 13 {
                    assert(t.take(n).drop_last() =~= data@.subrange(pos as int, end - 1));
                    assert(line@ =~= strip_cr(t.take(n)));
                } else {
                    assert(line@ =~= strip_cr(t.take(n)));
                }
                assert(t.skip(n + 1) =~= data@.skip(end + 1));
                assert(split_lines(t) =~= seq![line@] + split_lines(data@.skip(end + 1)));
                assert(views_of(old_lines) + split_lines(t) =~= views_of(lines@) + split_lines(
                    data@.skip(end + 1),
                ));
            }
            pos = end + 1;
        }
    }
    proof {
        assert(data@.skip(pos as int) =~= Seq::<u8>::empty());
        assert(split_lines(data@) =~= views_of(lines@));
    }
    lines
}

} // verus!
