//! Plain byte-order comparison of order keys, and the lexicographic order it
//! decides. Every caller sorts keys with this order; the generator in
//! `fractional` is proved against the same spec.

use vstd::prelude::*;
use std::cmp::Ordering;
use vstd::string::StringSliceAdditionalSpecFns;

verus! {

/// Strict lexicographic order on byte strings: the order `str` comparison
/// decides (a proper prefix sorts first).
pub open spec fn lex_lt(x: Seq<u8>, y: Seq<u8>) -> bool
    decreases x.len(),
{
    if y.len() == 0 {
        false
    } else if x.len() == 0 {
        true
    } else if x[0] < y[0] {
        true
    } else if x[0] > y[0] {
        false
    } else {
        lex_lt(x.drop_first(), y.drop_first())
    }
}

/// A common prefix does not change the comparison.
pub proof fn lemma_lex_lt_common_prefix(p: Seq<u8>, x: Seq<u8>, y: Seq<u8>)
    ensures
        lex_lt(p + x, p + y) == lex_lt(x, y),
    decreases p.len(),
{
    if p.len() > 0 {
        assert((p + x).drop_first() =~= p.drop_first() + x);
        assert((p + y).drop_first() =~= p.drop_first() + y);
        lemma_lex_lt_common_prefix(p.drop_first(), x, y);
    } else {
        assert(p + x =~= x);
        assert(p + y =~= y);
    }
}

/// A proper prefix sorts strictly first.
pub proof fn lemma_lex_lt_proper_prefix(p: Seq<u8>, y: Seq<u8>)
    requires
        y.len() > 0,
    ensures
        lex_lt(p, p + y),
{
    lemma_lex_lt_common_prefix(p, Seq::empty(), y);
    assert(p + Seq::<u8>::empty() =~= p);
}

/// Nothing sorts strictly before one of its own prefixes.
pub proof fn lemma_lex_lt_not_before_prefix(p: Seq<u8>, y: Seq<u8>)
    ensures
        !lex_lt(p + y, p),
{
    lemma_lex_lt_common_prefix(p, y, Seq::empty());
    assert(p + Seq::<u8>::empty() =~= p);
}

/// The first differing position decides, whatever follows it.
pub proof fn lemma_lex_lt_first_difference(x: Seq<u8>, y: Seq<u8>, i: int)
    requires
        0 <= i < x.len(),
        i < y.len(),
        x.subrange(0, i) == y.subrange(0, i),
        x[i] < y[i],
    ensures
        lex_lt(x, y),
{
    let p = x.subrange(0, i);
    assert(x =~= p + x.subrange(i, x.len() as int));
    assert(y =~= p + y.subrange(i, y.len() as int));
    lemma_lex_lt_common_prefix(p, x.subrange(i, x.len() as int), y.subrange(i, y.len() as int));
}

pub proof fn lemma_lex_lt_irreflexive(x: Seq<u8>)
    ensures
        !lex_lt(x, x),
    decreases x.len(),
{
    if x.len() > 0 {
        lemma_lex_lt_irreflexive(x.drop_first());
    }
}

pub proof fn lemma_lex_lt_asymmetric(x: Seq<u8>, y: Seq<u8>)
    ensures
        lex_lt(x, y) ==> !lex_lt(y, x),
    decreases x.len(),
{
    if x.len() > 0 && y.len() > 0 && x[0] == y[0] {
        lemma_lex_lt_asymmetric(x.drop_first(), y.drop_first());
    }
}

pub proof fn lemma_lex_lt_transitive(x: Seq<u8>, y: Seq<u8>, z: Seq<u8>)
    requires
        lex_lt(x, y),
        lex_lt(y, z),
    ensures
        lex_lt(x, z),
    decreases x.len(),
{
    if x.len() > 0 && y.len() > 0 && z.len() > 0 && x[0] == y[0] && y[0] == z[0] {
        lemma_lex_lt_transitive(x.drop_first(), y.drop_first(), z.drop_first());
    }
}

/// Distinct strings are ordered one way or the other.
pub proof fn lemma_lex_lt_total(x: Seq<u8>, y: Seq<u8>)
    ensures
        x == y || lex_lt(x, y) || lex_lt(y, x),
    decreases x.len(),
{
    if x.len() == 0 && y.len() == 0 {
        assert(x =~= y);
    } else if x.len() > 0 && y.len() > 0 && x[0] == y[0] {
        let xt = x.drop_first();
        let yt = y.drop_first();
        lemma_lex_lt_total(xt, yt);
        if xt == yt {
            assert forall|i: int| 0 <= i < x.len() implies x[i] == y[i] by {
                if i > 0 {
                    assert(x[i] == xt[i - 1]);
                    assert(y[i] == yt[i - 1]);
                }
            }
            assert(x =~= y);
        }
    }
}

/// Three-way byte comparison: `-1`, `0` or `1`.
pub(crate) fn compare_bytes(x: &[u8], y: &[u8]) -> (r: i8)
    ensures
        r == -1 <==> lex_lt(x@, y@),
        r == 0 <==> x@ == y@,
        r == 1 <==> lex_lt(y@, x@),
        -1 <= r <= 1,
{
    let ghost xs = x@;
    let ghost ys = y@;
    let mut i: usize = 0;
    while i < x.len() && i < y.len()
        invariant
            x@ == xs,
            y@ == ys,
            i <= xs.len(),
            i <= ys.len(),
            xs.subrange(0, i as int) == ys.subrange(0, i as int),
        decreases xs.len() - i,
    {
        if x[i] != y[i] {
            proof {
                lemma_lex_lt_asymmetric(xs, ys);
                lemma_lex_lt_irreflexive(xs);
            }
            if x[i] < y[i] {
                proof { lemma_lex_lt_first_difference(xs, ys, i as int); }
                return -1;
            } else {
                proof { lemma_lex_lt_first_difference(ys, xs, i as int); }
                return 1;
            }
        }
        assert(xs.subrange(0, i + 1) =~= xs.subrange(0, i as int).push(xs[i as int]));
        assert(ys.subrange(0, i + 1) =~= ys.subrange(0, i as int).push(ys[i as int]));
        i = i + 1;
    }
    let ghost p = xs.subrange(0, i as int);
    proof {
        assert(xs =~= p + xs.subrange(i as int, xs.len() as int));
        assert(ys =~= p + ys.subrange(i as int, ys.len() as int));
        lemma_lex_lt_common_prefix(p, xs.subrange(i as int, xs.len() as int), ys.subrange(i as int, ys.len() as int));
        lemma_lex_lt_common_prefix(p, ys.subrange(i as int, ys.len() as int), xs.subrange(i as int, xs.len() as int));
        lemma_lex_lt_irreflexive(xs);
        lemma_lex_lt_asymmetric(xs, ys);
    }
    if x.len() < y.len() {
        -1
    } else if x.len() > y.len() {
        1
    } else {
        assert(xs =~= ys);
        0
    }
}

/// Compare two order keys the way every caller must: plain byte order.
///
/// This is exactly `str` comparison, the byte order of the UTF-8 encodings.
pub fn cmp_keys(a: &str, b: &str) -> (r: Ordering)
    ensures
        r == Ordering::Less <==> lex_lt(a.spec_bytes(), b.spec_bytes()),
        r == Ordering::Equal <==> a.spec_bytes() == b.spec_bytes(),
        r == Ordering::Greater <==> lex_lt(b.spec_bytes(), a.spec_bytes()),
{
    let c = compare_bytes(a.as_bytes(), b.as_bytes());
    if c < 0 {
        Ordering::Less
    } else if c == 0 {
        Ordering::Equal
    } else {
        Ordering::Greater
    }
}


/// Strict lexicographic order on character strings by code point (the order
/// `String` comparison decides, since UTF-8 preserves code-point order).
pub open spec fn chars_lt(x: Seq<char>, y: Seq<char>) -> bool
    decreases x.len(),
{
    if y.len() == 0 {
        false
    } else if x.len() == 0 {
        true
    } else if (x[0] as int) < (y[0] as int) {
        true
    } else if (x[0] as int) > (y[0] as int) {
        false
    } else {
        chars_lt(x.drop_first(), y.drop_first())
    }
}

pub proof fn lemma_chars_lt_irreflexive(x: Seq<char>)
    ensures
        !chars_lt(x, x),
    decreases x.len(),
{
    if x.len() > 0 {
        lemma_chars_lt_irreflexive(x.drop_first());
    }
}

pub proof fn lemma_chars_lt_transitive(x: Seq<char>, y: Seq<char>, z: Seq<char>)
    requires
        chars_lt(x, y),
        chars_lt(y, z),
    ensures
        chars_lt(x, z),
    decreases x.len(),
{
    if x.len() > 0 && y.len() > 0 && z.len() > 0 && x[0] == y[0] && y[0] == z[0] {
        lemma_chars_lt_transitive(x.drop_first(), y.drop_first(), z.drop_first());
    }
}

/// Distinct strings are ordered one way or the other, never both.
pub proof fn lemma_chars_lt_total(x: Seq<char>, y: Seq<char>)
    ensures
        x == y || chars_lt(x, y) || chars_lt(y, x),
        !(chars_lt(x, y) && chars_lt(y, x)),
    decreases x.len(),
{
    if x.len() > 0 && y.len() > 0 && x[0] == y[0] {
        lemma_chars_lt_total(x.drop_first(), y.drop_first());
        if x.drop_first() == y.drop_first() {
            assert(x =~= seq![x[0]] + x.drop_first());
            assert(y =~= seq![y[0]] + y.drop_first());
        }
    } else if x.len() == 0 && y.len() == 0 {
        assert(x =~= y);
    }
}

/// `a < b` on strings.
pub fn str_lt(a: &str, b: &str) -> (r: bool)
    ensures
        r == chars_lt(a@, b@),
{
    let n = a.unicode_len();
    let m = b.unicode_len();
    let mut i: usize = 0;
    proof {
        assert(a@.skip(0) =~= a@);
        assert(b@.skip(0) =~= b@);
    }
    while i < n && i < m
        invariant
            n == a@.len(),
            m == b@.len(),
            i <= n,
            i <= m,
            chars_lt(a@, b@) == chars_lt(a@.skip(i as int), b@.skip(i as int)),
        decreases n - i,
    {
        let x = a.get_char(i);
        let y = b.get_char(i);
        proof {
            assert(a@.skip(i as int)[0] == x);
            assert(b@.skip(i as int)[0] == y);
            assert(a@.skip(i as int).drop_first() =~= a@.skip(i + 1));
            assert(b@.skip(i as int).drop_first() =~= b@.skip(i + 1));
        }
        if x != y {
            return (x as u32) < (y as u32);
        }
        i = i + 1;
    }
    i == n && i < m
}

} // verus!
