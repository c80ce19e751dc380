//! Byte-level text helpers for the vocabulary table and the detokenizer.
//!
//! Everything works on UTF-8 byte sequences; only ASCII bytes steer the
//! logic (line breaks, spaces, digits), so multi-byte characters pass
//! through untouched.

use vstd::prelude::*;

verus! {

/// ASCII whitespace: space, tab, line feed, vertical tab, form feed,
/// carriage return.
pub open spec fn is_ws(b: u8) -> bool {
    b == 32 || (9 <= b <= 13)
}

/// `s` without its leading whitespace.
pub open spec fn trim_start(s: Seq<u8>) -> Seq<u8>
    decreases s.len(),
{
    if s.len() > 0 && is_ws(s[0]) {
        trim_start(s.drop_first())
    } else {
        s
    }
}

/// `s` without its trailing whitespace.
pub open spec fn trim_end(s: Seq<u8>) -> Seq<u8>
    decreases s.len(),
{
    if s.len() > 0 && is_ws(s.last()) {
        trim_end(s.drop_last())
    } else {
        s
    }
}

/// `s` without leading and trailing whitespace.
pub open spec fn trim(s: Seq<u8>) -> Seq<u8> {
    trim_end(trim_start(s))
}

/// `s` split at every line feed. Always at least one (possibly empty) line;
/// a trailing line feed contributes a final empty line.
pub open spec fn split_lines(s: Seq<u8>) -> Seq<Seq<u8>>
    decreases s.len(),
{
    if s.len() == 0 {
        seq![Seq::<u8>::empty()]
    } else {
        let init = split_lines(s.drop_last());
        if s.last() == 10 {
            init.push(Seq::<u8>::empty())
        } else {
            init.update(init.len() - 1, init.last().push(s.last()))
        }
    }
}

/// `s` cut at its first space: the bytes before it, and — when there is a
/// space at all — the bytes after it.
pub open spec fn field_split(s: Seq<u8>) -> (Seq<u8>, Option<Seq<u8>>)
    decreases s.len(),
{
    if s.len() == 0 {
        (s, None::<Seq<u8>>)
    } else if s[0] == 32 {
        (Seq::<u8>::empty(), Some(s.drop_first()))
    } else {
        let r = field_split(s.drop_first());
        (seq![s[0]] + r.0, r.1)
    }
}

/// Where the first space of `s` sits at `p`, `field_split` cuts there.
pub proof fn lemma_field_split_at(s: Seq<u8>, p: int)
    requires
        0 <= p < s.len(),
        s[p] == 32,
        forall|j: int| 0 <= j < p ==> s[j] != 32,
    ensures
        field_split(s) == (s.take(p), Some(s.skip(p + 1))),
    decreases p,
{
    if p == 0 {
        assert(s.take(0) =~= Seq::<u8>::empty());
        assert(s.skip(1) =~= s.drop_first());
    } else {
        lemma_field_split_at(s.drop_first(), p - 1);
        assert(seq![s[0]] + s.drop_first().take(p - 1) =~= s.take(p));
        assert(s.drop_first().skip(p) =~= s.skip(p + 1));
    }
}

/// Where `s` holds no space, `field_split` keeps it whole.
pub proof fn lemma_field_split_none(s: Seq<u8>)
    requires
        forall|j: int| 0 <= j < s.len() ==> s[j] != 32,
    ensures
        field_split(s) == (s, None::<Seq<u8>>),
    decreases s.len(),
{
    if s.len() > 0 {
        lemma_field_split_none(s.drop_first());
        assert(seq![s[0]] + s.drop_first() =~= s);
    }
}

/// Whether `b` is an ASCII decimal digit.
pub open spec fn is_digit(b: u8) -> bool {
    48 <= b <= 57
}

/// Whether every byte of `s` is an ASCII decimal digit.
pub open spec fn all_digits(s: Seq<u8>) -> bool {
    forall|j: int| 0 <= j < s.len() ==> is_digit(#[trigger] s[j])
}

/// The number the digit bytes `s` write in decimal.
pub open spec fn digits_value(s: Seq<u8>) -> int
    decreases s.len(),
{
    if s.len() == 0 {
        0
    } else {
        digits_value(s.drop_last()) * 10 + (s.last() - 48)
    }
}

/// The `i64` that `s` writes in decimal: an optional sign, then at least one
/// digit and nothing else, with the value in range.
pub open spec fn parse_i64(s: Seq<u8>) -> Option<i64> {
    let neg = s.len() > 0 && s[0] == 45;
    let ds = if s.len() > 0 && (s[0] == 43 || s[0] == 45) {
        s.drop_first()
    } else {
        s
    };
    if ds.len() == 0 || !all_digits(ds) {
        None
    } else {
        let v = if neg {
            -digits_value(ds)
        } else {
            digits_value(ds)
        };
        if i64::MIN <= v <= i64::MAX {
            Some(v as i64)
        } else {
            None
        }
    }
}

/// Whether `b` is an ASCII whitespace byte.
pub fn is_ws_byte(b: u8) -> (r: bool)
    ensures
        r == is_ws(b),
{
    b == 32 || (9 <= b && b <= 13)
}

/// A copy of `v[lo..hi]`.
pub fn copy_byte_range(v: &Vec<u8>, lo: usize, hi: usize) -> (r: Vec<u8>)
    requires
        lo <= hi <= v@.len(),
    ensures
        r@ == v@.subrange(lo as int, hi as int),
{
    let mut r: Vec<u8> = Vec::new();
    let mut i: usize = lo;
    while i < hi
        invariant
            lo <= i <= hi <= v@.len(),
            r@ =~= v@.subrange(lo as int, i as int),
        decreases hi - i,
    {
        r.push(v[i]);
        i = i + 1;
    }
    assert(r@ =~= v@.subrange(lo as int, hi as int));
    r
}

/// `v` without leading and trailing ASCII whitespace.
pub fn trim_bytes(v: &Vec<u8>) -> (r: Vec<u8>)
    ensures
        r@ == trim(v@),
{
    let mut lo: usize = 0;
    proof {
        assert(v@.skip(0) =~= v@);
    }
    while lo < v.len() && is_ws_byte(v[lo])
        invariant
            lo <= v@.len(),
            trim_start(v@) == trim_start(v@.skip(lo as int)),
        decreases v@.len() - lo,
    {
        proof {
            assert(v@.skip(lo as int).drop_first() =~= v@.skip(lo as int + 1));
        }
        lo = lo + 1;
    }
    proof {
        if lo < v@.len() {
            assert(v@.skip(lo as int)[0] == v@[lo as int]);
        }
        assert(trim_start(v@) == v@.skip(lo as int));
    }
    let mut hi: usize = v.len();
    proof {
        assert(v@.skip(lo as int) =~= v@.subrange(lo as int, v@.len() as int));
    }
    while hi > lo && is_ws_byte(v[hi - 1])
        invariant
            lo <= hi <= v@.len(),
            trim_end(v@.skip(lo as int)) == trim_end(v@.subrange(lo as int, hi as int)),
        decreases hi,
    {
        proof {
            assert(v@.subrange(lo as int, hi as int).drop_last() =~= v@.subrange(
                lo as int,
                hi as int - 1,
            ));
        }
        hi = hi - 1;
    }
    proof {
        if hi > lo {
            assert(v@.subrange(lo as int, hi as int).last() == v@[hi as int - 1]);
        }
        assert(trim_end(v@.skip(lo as int)) == v@.subrange(lo as int, hi as int));
    }
    copy_byte_range(v, lo, hi)
}

/// `v` cut at its first space, as fresh vectors.
pub fn split_first_field(v: &Vec<u8>) -> (r: (Vec<u8>, Option<Vec<u8>>))
    ensures
        r.0@ == field_split(v@).0,
        match r.1 {
            Some(rest) => field_split(v@).1 == Some(rest@),
            None => field_split(v@).1 is None,
        },
{
    let mut i: usize = 0;
    while i < v.len() && v[i] != 32
        invariant
            i <= v@.len(),
            forall|j: int| 0 <= j < i ==> v@[j] != 32,
        decreases v@.len() - i,
    {
        i = i + 1;
    }
    if i < v.len() {
        proof {
            lemma_field_split_at(v@, i as int);
        }
        let first = copy_byte_range(v, 0, i);
        let rest = copy_byte_range(v, i + 1, v.len());
        proof {
            assert(v@.subrange(0, i as int) =~= v@.take(i as int));
            assert(v@.subrange(i as int + 1, v@.len() as int) =~= v@.skip(i as int + 1));
        }
        (first, Some(rest))
    } else {
        proof {
            lemma_field_split_none(v@);
        }
        (copy_byte_range(v, 0, v.len()), None)
    }
}

/// The `i64` that `v` writes in decimal, exactly as `parse_i64` reads it.
pub fn parse_i64_bytes(v: &Vec<u8>) -> (r: Option<i64>)
    ensures
        r == parse_i64(v@),
{
    let n = v.len();
    if n == 0 {
        return None;
    }
    let neg = v[0] == 45;
    let start: usize = if v[0] == 45 || v[0] == 43 {
        1
    } else {
        0
    };
    let ghost ds = if v@.len() > 0 && (v@[0] == 43 || v@[0] == 45) {
        v@.drop_first()
    } else {
        v@
    };
    proof {
        assert(start == 1 <==> v@.len() > 0 && (v@[0] == 43 || v@[0] == 45));
        assert(ds =~= v@.skip(start as int));
    }
    if start >= n {
        return None;
    }
    // Magnitude bound: i64::MAX for a positive value, one more for a
    // negative one.
    let bound: u64 = if neg {
        9223372036854775808
    } else {
        9223372036854775807
    };
    let mut acc: u64 = 0;
    let mut too_big = false;
    let mut i = start;
    while i < n
        invariant
            start <= i <= n,
            start < n,
            n == v@.len(),
            start == 0 || start == 1,
            start == 1 <==> v@.len() > 0 && (v@[0] == 43 || v@[0] == 45),
            neg <==> v@.len() > 0 && v@[0] == 45,
            ds == v@.skip(start as int),
            ds == (if v@.len() > 0 && (v@[0] == 43 || v@[0] == 45) {
                v@.drop_first()
            } else {
                v@
            }),
            neg ==> bound == 9223372036854775808,
            !neg ==> bound == 9223372036854775807,
            all_digits(ds.take(i - start)),
            !too_big ==> acc == digits_value(ds.take(i - start)) && acc <= bound,
            too_big ==> digits_value(ds.take(i - start)) > bound,
        decreases n - i,
    {
        let b = v[i];
        proof {
            assert(ds[i - start] == v@[i as int]);
        }
        if b < 48 || b > 57 {
            proof {
                assert(!is_digit(ds[i - start]));
                assert(!all_digits(ds));
            }
            return None;
        }
        let d = (b - 48) as u64;
        proof {
            assert(ds.take(i - start + 1).drop_last() =~= ds.take(i - start));
            assert(ds.take(i - start + 1).last() == ds[i - start]);
            assert(digits_value(ds.take(i - start + 1)) == digits_value(ds.take(i - start)) * 10 + (
            b - 48));
        }
        if too_big {
            proof {
                let prev = digits_value(ds.take(i - start));
                assert(prev * 10 == prev + prev * 9);
                assert(prev * 9 >= 9) by (nonlinear_arith)
                    requires
                        prev >= 1,
                ;
            }
        } else {
            if acc > (bound - d) / 10 {
                proof {
                    let q = ((bound - d) / 10) as int;
                    assert(q * 10 + ((bound - d) as int % 10) == bound - d);
                    assert(acc as int * 10 >= (q + 1) * 10);
                    assert((q + 1) * 10 == q * 10 + 10);
                    assert(acc as int * 10 + d > bound);
                }
                too_big = true;
            } else {
                proof {
                    let q = ((bound - d) / 10) as int;
                    assert(q * 10 <= bound - d);
                    assert(acc as int * 10 <= q * 10) by (nonlinear_arith)
                        requires
                            acc as int <= q,
                    ;
                }
                acc = acc * 10 + d;
            }
        }
        i = i + 1;
    }
    proof {
        assert(ds.take(n - start) =~= ds);
    }
    if too_big {
        return None;
    }
    if neg {
        if acc == 9223372036854775808u64 {
            Some(i64::MIN)
        } else {
            Some(-(acc as i64))
        }
    } else {
        Some(acc as i64)
    }
}

/// The views of a sequence of byte vectors.
pub open spec fn byte_views(ls: Seq<Vec<u8>>) -> Seq<Seq<u8>> {
    ls.map_values(|l: Vec<u8>| l@)
}

/// `v` split at every line feed, as fresh vectors.
pub fn split_lines_bytes(v: &Vec<u8>) -> (r: Vec<Vec<u8>>)
    ensures
        byte_views(r@) == split_lines(v@),
{
    let mut done: Vec<Vec<u8>> = Vec::new();
    let mut cur: Vec<u8> = Vec::new();
    let mut i: usize = 0;
    proof {
        assert(byte_views(done@).push(cur@) =~= split_lines(v@.take(0)));
    }
    while i < v.len()
        invariant
            i <= v@.len(),
            byte_views(done@).push(cur@) == split_lines(v@.take(i as int)),
        decreases v@.len() - i,
    {
        let ghost prev = split_lines(v@.take(i as int));
        proof {
            assert(v@.take(i as int + 1).drop_last() =~= v@.take(i as int));
            assert(v@.take(i as int + 1).last() == v@[i as int]);
        }
        if v[i] == 10 {
            done.push(cur);
            cur = Vec::new();
            proof {
                assert(byte_views(done@).push(cur@) =~= prev.push(Seq::<u8>::empty()));
            }
        } else {
            cur.push(v[i]);
            proof {
                assert(byte_views(done@).push(cur@) =~= prev.update(
                    prev.len() - 1,
                    prev.last().push(v@[i as int]),
                ));
            }
        }
        i = i + 1;
    }
    proof {
        assert(v@.take(v@.len() as int) =~= v@);
    }
    done.push(cur);
    proof {
        assert(byte_views(done@) =~= split_lines(v@));
    }
    done
}

/// `s` with every occurrence of the word-boundary marker codepoint
/// (U+2581, bytes 0xe2 0x96 0x81) rewritten to an ordinary space.
pub open spec fn replace_marker(s: Seq<u8>) -> Seq<u8>
    decreases s.len(),
{
    if s.len() == 0 {
        s
    } else if s.len() >= 3 && s[0] == 0xe2 && s[1] == 0x96 && s[2] == 0x81 {
        seq![32u8] + replace_marker(s.skip(3))
    } else {
        seq![s[0]] + replace_marker(s.skip(1))
    }
}

/// `v` with every marker codepoint rewritten to a space.
pub fn replace_marker_bytes(v: &Vec<u8>) -> (r: Vec<u8>)
    ensures
        r@ == replace_marker(v@),
{
    let mut out: Vec<u8> = Vec::new();
    let mut i: usize = 0;
    proof {
        assert(v@.skip(0) =~= v@);
        assert(out@ + replace_marker(v@) =~= replace_marker(v@));
    }
    while i < v.len()
        invariant
            i <= v@.len(),
            replace_marker(v@) == out@ + replace_marker(v@.skip(i as int)),
        decreases v@.len() - i,
    {
        let ghost rest = v@.skip(i as int);
        if v.len() - i >= 3 && v[i] == 0xe2 && v[i + 1] == 0x96 && v[i + 2] == 0x81 {
            proof {
                assert(rest[0] == v@[i as int] && rest[1] == v@[i as int + 1] && rest[2] == v@[
                    i as int + 2
                ]);
                assert(rest.skip(3) =~= v@.skip(i as int + 3));
                assert(out@ + (seq![32u8] + replace_marker(rest.skip(3))) =~= out@.push(32u8)
                    + replace_marker(rest.skip(3)));
            }
            out.push(32);
            i = i + 3;
        } else {
            proof {
                assert(rest[0] == v@[i as int]);
                assert(rest.skip(1) =~= v@.skip(i as int + 1));
                assert(out@ + (seq![rest[0]] + replace_marker(rest.skip(1))) =~= out@.push(
                    v@[i as int],
                ) + replace_marker(rest.skip(1)));
            }
            out.push(v[i]);
            i = i + 1;
        }
    }
    proof {
        assert(v@.skip(v@.len() as int) =~= Seq::<u8>::empty());
        assert(out@ + replace_marker(Seq::<u8>::empty()) =~= out@);
    }
    out
}

/// One left-to-right pass of whitespace normalization: the output so far and
/// whether a separating space is owed before the next non-whitespace byte.
pub open spec fn norm_fold(s: Seq<u8>) -> (Seq<u8>, bool)
    decreases s.len(),
{
    if s.len() == 0 {
        (Seq::<u8>::empty(), false)
    } else {
        let r = norm_fold(s.drop_last());
        let c = s.last();
        if is_ws(c) {
            (r.0, true)
        } else if r.0.len() == 0 {
            (seq![c], false)
        } else if r.1 {
            (r.0.push(32u8).push(c), false)
        } else {
            (r.0.push(c), false)
        }
    }
}

/// `s` with leading and trailing whitespace removed and every internal
/// whitespace run collapsed to one space.
pub open spec fn normalize_ws(s: Seq<u8>) -> Seq<u8> {
    norm_fold(s).0
}

/// `v` with leading and trailing whitespace removed and every internal
/// whitespace run collapsed to one space.
pub fn normalize_ws_bytes(v: &Vec<u8>) -> (r: Vec<u8>)
    ensures
        r@ == normalize_ws(v@),
{
    let mut out: Vec<u8> = Vec::new();
    let mut pending = false;
    let mut i: usize = 0;
    proof {
        assert(v@.take(0) =~= Seq::<u8>::empty());
    }
    while i < v.len()
        invariant
            i <= v@.len(),
            out@ == norm_fold(v@.take(i as int)).0,
            pending == norm_fold(v@.take(i as int)).1,
        decreases v@.len() - i,
    {
        proof {
            assert(v@.take(i as int + 1).drop_last() =~= v@.take(i as int));
            assert(v@.take(i as int + 1).last() == v@[i as int]);
        }
        let b = v[i];
        if is_ws_byte(b) {
            pending = true;
        } else {
            if out.len() > 0 && pending {
                out.push(32);
            }
            out.push(b);
            pending = false;
            proof {
                if norm_fold(v@.take(i as int)).0.len() == 0 {
                    assert(out@ =~= seq![b]);
                }
            }
        }
        i = i + 1;
    }
    proof {
        assert(v@.take(v@.len() as int) =~= v@);
    }
    out
}

} // verus!
