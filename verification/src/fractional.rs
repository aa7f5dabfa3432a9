//! Fractional indexing for z-order, specialised to the fixed base-62 alphabet.
//!
//! A key is `integer_part ++ fractional_part`. The digit alphabet is base-62,
//! ordered `0-9`, `A-Z`, `a-z`, so a digit's value equals its byte-sort rank.
//! The integer part is self-describing in length: heads `'a'..='z'` are
//! positive with total length `head - 'a' + 2`, heads `'A'..='Z'` negative with
//! total length `'Z' - head + 2`; the canonical zero is `"a0"`. The fractional
//! part is more digits and never ends in `'0'`.
//!
//! The one invariant: keys order under plain byte comparison, and
//! [`generate_key_between`]`(a, b)` returns `k` with `a < k < b`.

use vstd::prelude::*;
use vstd::string::StringSliceAdditionalSpecFns;

use crate::key_order::{lex_lt, compare_bytes, lemma_lex_lt_total, lemma_lex_lt_common_prefix, lemma_lex_lt_proper_prefix, lemma_lex_lt_not_before_prefix, lemma_lex_lt_first_difference, lemma_lex_lt_irreflexive, lemma_lex_lt_asymmetric, lemma_lex_lt_transitive};
pub use crate::key_order::cmp_keys;
use crate::text::{chars_of, debug_char, debug_char_quoted, debug_quoted, debug_str, push_str, string_from_bytes, copy_range, push_char};
use crate::object::model::{ObjectScene, ObjectView};
use vstd::utf8::{encode_scalar, encode_utf8, is_ascii_chars, is_ascii_chars_encode_utf8};

verus! {

/// `'0'`, the smallest digit.
pub const ZERO: u8 = 48;
/// `'9'`.
pub const NINE: u8 = 57;
/// `'A'`, the smallest negative head.
pub const UPPER_A: u8 = 65;
/// `'Z'`, the largest negative head.
pub const UPPER_Z: u8 = 90;
/// `'a'`, the head of the one-digit positive integers.
pub const LOWER_A: u8 = 97;
/// `'z'`, the largest digit and the largest head.
pub const MAX_DIGIT: u8 = 122;

// ---------------------------------------------------------------------------
// The key model
// ---------------------------------------------------------------------------

pub open spec fn is_digit(c: u8) -> bool {
    (ZERO <= c <= NINE) || (UPPER_A <= c <= UPPER_Z) || (LOWER_A <= c <= MAX_DIGIT)
}

/// The value of a digit byte (its index in the alphabet), or `-1`.
pub open spec fn digit_value(c: u8) -> int {
    if ZERO <= c <= NINE {
        c - ZERO
    } else if UPPER_A <= c <= UPPER_Z {
        c - UPPER_A + 10
    } else if LOWER_A <= c <= MAX_DIGIT {
        c - LOWER_A + 36
    } else {
        -1
    }
}

/// The digit byte of value `v` (`0 <= v < 62`).
pub open spec fn digit_byte(v: int) -> u8 {
    if v < 10 {
        (v + ZERO) as u8
    } else if v < 36 {
        (v - 10 + UPPER_A) as u8
    } else {
        (v - 36 + LOWER_A) as u8
    }
}

pub open spec fn all_digits(s: Seq<u8>) -> bool {
    forall|i: int| 0 <= i < s.len() ==> is_digit(#[trigger] s[i])
}

/// Total length (head included) of the integer part with this head, or `-1`
/// when the byte is not a head.
pub open spec fn integer_length(head: u8) -> int {
    if LOWER_A <= head <= MAX_DIGIT {
        head - LOWER_A + 2
    } else if UPPER_A <= head <= UPPER_Z {
        UPPER_Z - head + 2
    } else {
        -1
    }
}

/// The sentinel smallest integer part, `"A"` followed by 26 `'0'`s.
pub open spec fn smallest_integer_spec() -> Seq<u8> {
    seq![UPPER_A] + Seq::new(26, |i: int| ZERO)
}

/// A well-formed whole integer part: a head and exactly as many bytes as the
/// head announces.
pub open spec fn valid_integer(x: Seq<u8>) -> bool {
    x.len() > 0 && integer_length(x[0]) == x.len()
}

/// A complete, well-formed order key.
pub open spec fn valid_key(k: Seq<u8>) -> bool {
    &&& k != smallest_integer_spec()
    &&& k.len() > 0
    &&& 0 < integer_length(k[0]) <= k.len()
    &&& all_digits(k.drop_first())
    &&& k.len() > integer_length(k[0]) ==> k.last() != ZERO
}

pub open spec fn integer_part(k: Seq<u8>) -> Seq<u8> {
    k.subrange(0, integer_length(k[0]))
}

pub open spec fn fraction_part(k: Seq<u8>) -> Seq<u8> {
    k.subrange(integer_length(k[0]), k.len() as int)
}

/// A fractional digit string the midpoint accepts: digits, no trailing `'0'`.
pub open spec fn valid_fraction(f: Seq<u8>) -> bool {
    all_digits(f) && (f.len() > 0 ==> f.last() != ZERO)
}

pub open spec fn fill(n: int, c: u8) -> Seq<u8> {
    Seq::new(n as nat, |i: int| c)
}

/// Index of the last byte of `d` that is not `m`, or `-1` when every byte is `m`.
pub open spec fn last_not(d: Seq<u8>, m: u8) -> int
    decreases d.len(),
{
    if d.len() == 0 {
        -1
    } else if d.last() != m {
        d.len() - 1
    } else {
        last_not(d.drop_last(), m)
    }
}

/// The next integer part after `x`, or `None` past the largest one.
pub open spec fn spec_increment(x: Seq<u8>) -> Option<Seq<u8>> {
    let head = x[0];
    let d = x.drop_first();
    let j = last_not(d, MAX_DIGIT);
    if j >= 0 {
        Some(seq![head] + d.subrange(0, j).push(digit_byte(digit_value(d[j]) + 1)) + fill(
            d.len() - j - 1,
            ZERO,
        ))
    } else if head == UPPER_Z {
        Some(seq![LOWER_A, ZERO])
    } else if head == MAX_DIGIT {
        None
    } else if head + 1 > LOWER_A {
        Some(seq![(head + 1) as u8] + fill(d.len() + 1int, ZERO))
    } else {
        Some(seq![(head + 1) as u8] + fill(d.len() - 1, ZERO))
    }
}

/// The integer part before `x`, or `None` below the smallest one.
pub open spec fn spec_decrement(x: Seq<u8>) -> Option<Seq<u8>> {
    let head = x[0];
    let d = x.drop_first();
    let j = last_not(d, ZERO);
    if j >= 0 {
        Some(seq![head] + d.subrange(0, j).push(digit_byte(digit_value(d[j]) - 1)) + fill(
            d.len() - j - 1,
            MAX_DIGIT,
        ))
    } else if head == LOWER_A {
        Some(seq![UPPER_Z, MAX_DIGIT])
    } else if head == UPPER_A {
        None
    } else if head - 1 < UPPER_Z {
        Some(seq![(head - 1) as u8] + fill(d.len() + 1int, MAX_DIGIT))
    } else {
        Some(seq![(head - 1) as u8] + fill(d.len() - 1, MAX_DIGIT))
    }
}

/// Whether incrementing `x` reads an invalid digit (the scan from the right
/// stops at the first byte that is not `'z'` and reads it).
pub open spec fn increment_reads_bad_digit(x: Seq<u8>) -> bool {
    let d = x.drop_first();
    last_not(d, MAX_DIGIT) >= 0 && !is_digit(d[last_not(d, MAX_DIGIT)])
}

pub open spec fn decrement_reads_bad_digit(x: Seq<u8>) -> bool {
    let d = x.drop_first();
    last_not(d, ZERO) >= 0 && !is_digit(d[last_not(d, ZERO)])
}

/// The digit an increment reads last: the rightmost one that is not the top
/// digit.
pub open spec fn increment_bad_digit(x: Seq<u8>) -> u8 {
    let d = x.drop_first();
    d[last_not(d, MAX_DIGIT)]
}

/// The digit a decrement reads last: the rightmost one that is not `'0'`.
pub open spec fn decrement_bad_digit(x: Seq<u8>) -> u8 {
    let d = x.drop_first();
    d[last_not(d, ZERO)]
}

/// `a` read with an infinite tail of `'0'`s.
pub open spec fn pad_at(a: Seq<u8>, i: int) -> u8 {
    if 0 <= i < a.len() {
        a[i]
    } else {
        ZERO
    }
}

/// Length of the longest prefix of `b` (from `n` on) that matches the
/// zero-padded `a`.
pub open spec fn padded_prefix(a: Seq<u8>, b: Seq<u8>, n: int) -> int
    decreases b.len() - n,
{
    if 0 <= n < b.len() && pad_at(a, n) == b[n] {
        padded_prefix(a, b, n + 1)
    } else {
        n
    }
}

pub open spec fn opt_len(b: Option<Seq<u8>>) -> int {
    match b {
        Some(s) => s.len() as int,
        None => 0,
    }
}

/// `s[n..]`, or empty past the end.
pub open spec fn tail_from(s: Seq<u8>, n: int) -> Seq<u8> {
    if n < s.len() {
        s.subrange(n, s.len() as int)
    } else {
        Seq::empty()
    }
}

/// The midpoint of two fraction digit strings (`b == None` is the open upper
/// end): strip the common zero-padded prefix; if the first digits are more
/// than one apart take the rounded-up middle digit; otherwise keep `b`'s first
/// digit when `b` is longer, else descend into `a`'s tail under `a`'s first digit.
pub open spec fn spec_midpoint(a: Seq<u8>, b: Option<Seq<u8>>) -> Seq<u8>
    decreases a.len() + opt_len(b),
    when (b matches Some(bb) ==> bb.len() > 0)
{
    let n = match b {
        Some(bb) => padded_prefix(a, bb, 0),
        None => 0,
    };
    if b is Some && 0 < n <= b->0.len() {
        let bb = b->0;
        bb.subrange(0, n) + spec_midpoint(tail_from(a, n), Some(bb.subrange(n, bb.len() as int)))
    } else {
        let da = if a.len() > 0 {
            digit_value(a[0])
        } else {
            0
        };
        let db = match b {
            Some(bb) => digit_value(bb[0]),
            None => 62,
        };
        if db - da > 1 {
            seq![digit_byte((da + db + 1) / 2)]
        } else if b is Some && b->0.len() > 1 {
            seq![b->0[0]]
        } else {
            proof {
                assert(a.len() > 0 || b is Some);
                assert(tail_from(a, 1).len() < a.len() + opt_len(b));
            }
            seq![digit_byte(da)] + spec_midpoint(tail_from(a, 1), None)
        }
    }
}

/// The key [`generate_key_between`] returns for well-formed, ordered bounds
/// (`None` only where it reports an overflow).
pub open spec fn spec_key_between(a: Option<Seq<u8>>, b: Option<Seq<u8>>) -> Option<Seq<u8>> {
    match (a, b) {
        (None, None) => Some(seq![LOWER_A, ZERO]),
        (None, Some(b)) => {
            let ib = integer_part(b);
            let fb = fraction_part(b);
            if ib == smallest_integer_spec() {
                Some(ib + spec_midpoint(Seq::empty(), Some(fb)))
            } else if fb.len() > 0 {
                Some(ib)
            } else {
                spec_decrement(ib)
            }
        },
        (Some(a), None) => {
            let ia = integer_part(a);
            let fa = fraction_part(a);
            match spec_increment(ia) {
                None => Some(ia + spec_midpoint(fa, None)),
                Some(i) => Some(i),
            }
        },
        (Some(a), Some(b)) => {
            let ia = integer_part(a);
            let fa = fraction_part(a);
            let ib = integer_part(b);
            let fb = fraction_part(b);
            if ia == ib {
                Some(ia + spec_midpoint(fa, Some(fb)))
            } else {
                match spec_increment(ia) {
                    None => None,
                    Some(i) => if lex_lt(i, b) {
                        Some(i)
                    } else {
                        Some(ia + spec_midpoint(fa, None))
                    },
                }
            }
        },
    }
}

/// The bytes of an optional key.
pub open spec fn opt_bytes(k: Option<&str>) -> Option<Seq<u8>> {
    match k {
        Some(s) => Some(s.spec_bytes()),
        None => None,
    }
}

/// Well-formed, ordered bounds: each present bound is a valid key, and `a < b`
/// when both are present.
pub open spec fn bounds_ok(a: Option<Seq<u8>>, b: Option<Seq<u8>>) -> bool {
    &&& (a matches Some(x) ==> valid_key(x))
    &&& (b matches Some(y) ==> valid_key(y))
    &&& (a matches Some(x) ==> (b matches Some(y) ==> lex_lt(x, y)))
}

/// `k` lies strictly between the present bounds.
pub open spec fn strictly_between(a: Option<Seq<u8>>, k: Seq<u8>, b: Option<Seq<u8>>) -> bool {
    &&& (a matches Some(x) ==> lex_lt(x, k))
    &&& (b matches Some(y) ==> lex_lt(k, y))
}

// ---------------------------------------------------------------------------
// Lemmas
// ---------------------------------------------------------------------------

proof fn lemma_digit(c: u8)
    ensures
        is_digit(c) ==> 0 <= digit_value(c) < 62 && digit_byte(digit_value(c)) == c,
        !is_digit(c) ==> digit_value(c) == -1,
{
}

proof fn lemma_digit_byte(v: int)
    requires
        0 <= v < 62,
    ensures
        is_digit(digit_byte(v)),
        digit_value(digit_byte(v)) == v,
{
}

/// Digit order is byte order.
proof fn lemma_digit_order(c: u8, d: u8)
    requires
        is_digit(c),
        is_digit(d),
    ensures
        (c < d) == (digit_value(c) < digit_value(d)),
        (c == d) == (digit_value(c) == digit_value(d)),
{
}

proof fn lemma_last_not(d: Seq<u8>, m: u8)
    ensures
        -1 <= last_not(d, m) < d.len(),
        last_not(d, m) >= 0 ==> d[last_not(d, m)] != m,
        forall|i: int| last_not(d, m) < i < d.len() ==> d[i] == m,
    decreases d.len(),
{
    if d.len() > 0 && d.last() == m {
        let e = d.drop_last();
        lemma_last_not(e, m);
        assert forall|i: int| last_not(d, m) < i < d.len() implies d[i] == m by {
            if i < d.len() - 1 {
                assert(d[i] == e[i]);
            }
        }
    }
}

proof fn lemma_padded_prefix(a: Seq<u8>, b: Seq<u8>, k: int)
    requires
        0 <= k <= b.len(),
        forall|i: int| 0 <= i < k ==> pad_at(a, i) == b[i],
    ensures
        k <= padded_prefix(a, b, k) <= b.len(),
        forall|i: int| 0 <= i < padded_prefix(a, b, k) ==> pad_at(a, i) == b[i],
        padded_prefix(a, b, k) < b.len() ==> pad_at(a, padded_prefix(a, b, k)) != b[padded_prefix(
            a,
            b,
            k,
        )],
    decreases b.len() - k,
{
    if k < b.len() && pad_at(a, k) == b[k] {
        lemma_padded_prefix(a, b, k + 1);
    }
}

/// Where two strings agree up to `k` and differ at `k`, the smaller one has the
/// smaller byte there.
proof fn lemma_lex_lt_at_difference(x: Seq<u8>, y: Seq<u8>, k: int)
    requires
        lex_lt(x, y),
        0 <= k < x.len(),
        k < y.len(),
        x.subrange(0, k) == y.subrange(0, k),
        x[k] != y[k],
    ensures
        x[k] < y[k],
{
    if x[k] > y[k] {
        lemma_lex_lt_first_difference(y, x, k);
        lemma_lex_lt_asymmetric(x, y);
    }
}

proof fn lemma_valid_fraction_tail(f: Seq<u8>, n: int)
    requires
        valid_fraction(f),
        0 <= n,
    ensures
        valid_fraction(tail_from(f, n)),
{
    let t = tail_from(f, n);
    assert forall|i: int| 0 <= i < t.len() implies is_digit(#[trigger] t[i]) by {
        assert(t[i] == f[n + i]);
    }
    if t.len() > 0 {
        assert(t.last() == f.last());
    }
}

/// The midpoint lies strictly between its bounds and is itself a valid,
/// non-empty fraction.
#[verifier::spinoff_prover]
#[verifier::rlimit(40)]
proof fn lemma_midpoint(a: Seq<u8>, b: Option<Seq<u8>>)
    requires
        valid_fraction(a),
        b matches Some(bb) ==> bb.len() > 0 && valid_fraction(bb) && lex_lt(a, bb),
    ensures
        spec_midpoint(a, b).len() > 0,
        valid_fraction(spec_midpoint(a, b)),
        lex_lt(a, spec_midpoint(a, b)),
        b matches Some(bb) ==> lex_lt(spec_midpoint(a, b), bb),
    decreases a.len() + opt_len(b),
{
    let m = spec_midpoint(a, b);
    let n = match b {
        Some(bb) => padded_prefix(a, bb, 0),
        None => 0,
    };
    if let Some(bb) = b {
        lemma_padded_prefix(a, bb, 0);
    }
    if b is Some && 0 < n <= b->0.len() {
        let bb = b->0;
        let pre = bb.subrange(0, n);
        let rest_a = tail_from(a, n);
        let rest_b = bb.subrange(n, bb.len() as int);
        lemma_valid_fraction_tail(a, n);
        lemma_valid_fraction_tail(bb, n);
        assert(tail_from(bb, n) == rest_b || n == bb.len());
        if a.len() <= n {
            // `a` is a prefix of `bb`, followed there by zeros.
            assert(a =~= bb.subrange(0, a.len() as int));
            if n == bb.len() {
                if n > a.len() {
                    assert(bb.last() == pad_at(a, n - 1));
                } else {
                    assert(a =~= bb);
                    lemma_lex_lt_irreflexive(a);
                }
            }
            assert(rest_a =~= Seq::<u8>::empty());
            lemma_midpoint(rest_a, Some(rest_b));
            let mr = spec_midpoint(rest_a, Some(rest_b));
            assert(m =~= pre + mr);
            assert(m =~= a + (bb.subrange(a.len() as int, n) + mr));
            lemma_lex_lt_proper_prefix(a, bb.subrange(a.len() as int, n) + mr);
            assert(bb =~= pre + rest_b);
            lemma_lex_lt_common_prefix(pre, mr, rest_b);
        } else {
            assert(a =~= pre + rest_a);
            if n == bb.len() {
                assert(bb =~= pre);
                lemma_lex_lt_not_before_prefix(pre, rest_a);
            }
            assert(bb =~= pre + rest_b);
            lemma_lex_lt_common_prefix(pre, rest_a, rest_b);
            lemma_midpoint(rest_a, Some(rest_b));
            let mr = spec_midpoint(rest_a, Some(rest_b));
            assert(m =~= pre + mr);
            lemma_lex_lt_common_prefix(pre, rest_a, mr);
            lemma_lex_lt_common_prefix(pre, mr, rest_b);
        }
        let mr = spec_midpoint(rest_a, Some(rest_b));
        assert(m.last() == mr.last());
        assert forall|i: int| 0 <= i < m.len() implies is_digit(#[trigger] m[i]) by {
            if i >= n {
                assert(m[i] == mr[i - n]);
            }
        }
    } else {
        let da = if a.len() > 0 {
            digit_value(a[0])
        } else {
            0
        };
        let db = match b {
            Some(bb) => digit_value(bb[0]),
            None => 62,
        };
        if a.len() > 0 {
            lemma_digit(a[0]);
        }
        if let Some(bb) = b {
            lemma_digit(bb[0]);
            if a.len() > 0 {
                assert(a[0] != bb[0]);
                assert(a.subrange(0, 0) =~= bb.subrange(0, 0));
                lemma_lex_lt_at_difference(a, bb, 0);
                lemma_digit_order(a[0], bb[0]);
            } else {
                assert(bb[0] != ZERO);
            }
        }
        assert(da < db);
        if db - da > 1 {
            let mid = (da + db + 1) / 2;
            lemma_digit_byte(mid);
            assert(m =~= seq![digit_byte(mid)]);
            if a.len() > 0 {
                lemma_digit_order(a[0], digit_byte(mid));
            }
            if let Some(bb) = b {
                lemma_digit_order(digit_byte(mid), bb[0]);
            }
        } else if b is Some && b->0.len() > 1 {
            let bb = b->0;
            assert(m =~= seq![bb[0]]);
            assert(bb =~= m + bb.drop_first());
            lemma_lex_lt_proper_prefix(m, bb.drop_first());
        } else {
            let rest = tail_from(a, 1);
            lemma_valid_fraction_tail(a, 1);
            lemma_midpoint(rest, None);
            let mr = spec_midpoint(rest, None);
            lemma_digit_byte(da);
            assert(m =~= seq![digit_byte(da)] + mr);
            if a.len() > 0 {
                assert(a =~= seq![a[0]] + rest);
                lemma_lex_lt_common_prefix(seq![a[0]], rest, mr);
            }
            if let Some(bb) = b {
                lemma_digit_order(digit_byte(da), bb[0]);
            }
            assert(m.last() == mr.last());
            assert forall|i: int| 0 <= i < m.len() implies is_digit(#[trigger] m[i]) by {
                if i >= 1 {
                    assert(m[i] == mr[i - 1]);
                }
            }
        }
    }
}

/// The unique index that `last_not` reports.
proof fn lemma_last_not_at(d: Seq<u8>, m: u8, j: int)
    requires
        -1 <= j < d.len(),
        j >= 0 ==> d[j] != m,
        forall|i: int| j < i < d.len() ==> d[i] == m,
    ensures
        last_not(d, m) == j,
{
    lemma_last_not(d, m);
    let k = last_not(d, m);
    if k > j {
        assert(d[k] == m);
    } else if k < j {
        assert(d[j] == m);
    }
}

proof fn lemma_all_digits_concat(x: Seq<u8>, y: Seq<u8>)
    requires
        all_digits(x),
        all_digits(y),
    ensures
        all_digits(x + y),
{
    assert forall|i: int| 0 <= i < (x + y).len() implies is_digit(#[trigger] (x + y)[i]) by {
        if i >= x.len() {
            assert((x + y)[i] == y[i - x.len()]);
        }
    }
}

/// Incrementing gives a well-formed integer part that sorts after every key
/// with integer part `x`; only the largest integer has no successor.
proof fn lemma_increment(x: Seq<u8>, f: Seq<u8>)
    requires
        valid_integer(x),
        all_digits(x.drop_first()),
    ensures
        !increment_reads_bad_digit(x),
        spec_increment(x) matches Some(r) ==> {
            &&& valid_integer(r)
            &&& all_digits(r.drop_first())
            &&& r != smallest_integer_spec()
            &&& lex_lt(x + f, r)
        },
        spec_increment(x) is None <==> (x[0] == MAX_DIGIT && forall|i: int|
            1 <= i < x.len() ==> x[i] == MAX_DIGIT),
{
    let head = x[0];
    let d = x.drop_first();
    let j = last_not(d, MAX_DIGIT);
    lemma_last_not(d, MAX_DIGIT);
    if j >= 0 {
        assert(is_digit(d[j]));
    }
    let xf = x + f;
    if j >= 0 {
        let dj = d[j];
        lemma_digit(dj);
        let nd = digit_byte(digit_value(dj) + 1);
        lemma_digit_byte(digit_value(dj) + 1);
        lemma_digit_order(dj, nd);
        let r = seq![head] + d.subrange(0, j).push(nd) + fill(d.len() - j - 1, ZERO);
        assert(spec_increment(x) == Some(r));
        assert(r.len() == x.len());
        assert(r.subrange(0, j + 1) =~= xf.subrange(0, j + 1));
        assert(r[j + 1] == nd);
        assert(xf[j + 1] == dj);
        lemma_lex_lt_first_difference(xf, r, j + 1);
        assert forall|i: int| 0 <= i < r.drop_first().len() implies is_digit(
            #[trigger] r.drop_first()[i],
        ) by {
            assert(r.drop_first()[i] == r[i + 1]);
            if i < j {
                assert(r[i + 1] == d[i]);
            }
        }
        if r == smallest_integer_spec() {
            assert(r[j + 1] == smallest_integer_spec()[j + 1]);
        }
        assert(x[j + 1] == dj);
    } else {
        assert forall|i: int| 1 <= i < x.len() implies x[i] == MAX_DIGIT by {
            assert(x[i] == d[i - 1]);
        }
        if head == UPPER_Z {
            let r = seq![LOWER_A, ZERO];
            assert(xf.subrange(0, 0) =~= r.subrange(0, 0));
            lemma_lex_lt_first_difference(xf, r, 0);
            assert(r.drop_first() =~= seq![ZERO]);
        } else if head != MAX_DIGIT {
            let h = (head + 1) as u8;
            let r = if head + 1 > LOWER_A {
                seq![h] + fill(d.len() + 1int, ZERO)
            } else {
                seq![h] + fill(d.len() - 1, ZERO)
            };
            assert(spec_increment(x) == Some(r));
            assert(xf.subrange(0, 0) =~= r.subrange(0, 0));
            lemma_lex_lt_first_difference(xf, r, 0);
            assert forall|i: int| 0 <= i < r.drop_first().len() implies is_digit(
                #[trigger] r.drop_first()[i],
            ) by {
                assert(r.drop_first()[i] == r[i + 1]);
            }
            if r == smallest_integer_spec() {
                assert(r[0] == smallest_integer_spec()[0]);
            }
        }
    }
}

/// Decrementing gives a well-formed integer part that sorts before `x`; only
/// the sentinel smallest integer has no predecessor.
proof fn lemma_decrement(x: Seq<u8>)
    requires
        valid_integer(x),
        all_digits(x.drop_first()),
    ensures
        !decrement_reads_bad_digit(x),
        spec_decrement(x) matches Some(r) ==> {
            &&& valid_integer(r)
            &&& all_digits(r.drop_first())
            &&& lex_lt(r, x)
        },
        spec_decrement(x) is None <==> x == smallest_integer_spec(),
{
    let head = x[0];
    let d = x.drop_first();
    let j = last_not(d, ZERO);
    lemma_last_not(d, ZERO);
    if j >= 0 {
        assert(is_digit(d[j]));
        let dj = d[j];
        lemma_digit(dj);
        let pd = digit_byte(digit_value(dj) - 1);
        lemma_digit_byte(digit_value(dj) - 1);
        lemma_digit_order(pd, dj);
        let r = seq![head] + d.subrange(0, j).push(pd) + fill(d.len() - j - 1, MAX_DIGIT);
        assert(spec_decrement(x) == Some(r));
        assert(r.len() == x.len());
        assert(r.subrange(0, j + 1) =~= x.subrange(0, j + 1));
        assert(x[j + 1] == dj);
        lemma_lex_lt_first_difference(r, x, j + 1);
        assert forall|i: int| 0 <= i < r.drop_first().len() implies is_digit(
            #[trigger] r.drop_first()[i],
        ) by {
            assert(r.drop_first()[i] == r[i + 1]);
            if i < j {
                assert(r[i + 1] == d[i]);
            }
        }
        if x == smallest_integer_spec() {
            assert(x[j + 1] == smallest_integer_spec()[j + 1]);
        }
    } else {
        assert forall|i: int| 1 <= i < x.len() implies x[i] == ZERO by {
            assert(x[i] == d[i - 1]);
        }
        if head == LOWER_A {
            let r = seq![UPPER_Z, MAX_DIGIT];
            assert(x.subrange(0, 0) =~= r.subrange(0, 0));
            lemma_lex_lt_first_difference(r, x, 0);
            assert(r.drop_first() =~= seq![MAX_DIGIT]);
            if x == smallest_integer_spec() {
                assert(x[0] == smallest_integer_spec()[0]);
            }
        } else if head != UPPER_A {
            let h = (head - 1) as u8;
            let r = if head - 1 < UPPER_Z {
                seq![h] + fill(d.len() + 1int, MAX_DIGIT)
            } else {
                seq![h] + fill(d.len() - 1, MAX_DIGIT)
            };
            assert(spec_decrement(x) == Some(r));
            assert(x.subrange(0, 0) =~= r.subrange(0, 0));
            lemma_lex_lt_first_difference(r, x, 0);
            assert forall|i: int| 0 <= i < r.drop_first().len() implies is_digit(
                #[trigger] r.drop_first()[i],
            ) by {
                assert(r.drop_first()[i] == r[i + 1]);
            }
            if x == smallest_integer_spec() {
                assert(x[0] == smallest_integer_spec()[0]);
            }
        } else {
            assert(x =~= smallest_integer_spec());
        }
    }
}

/// The two parts of a valid key are a valid integer and a valid fraction.
proof fn lemma_key_parts(k: Seq<u8>)
    requires
        valid_key(k),
    ensures
        valid_integer(integer_part(k)),
        all_digits(integer_part(k).drop_first()),
        valid_fraction(fraction_part(k)),
        k == integer_part(k) + fraction_part(k),
        integer_part(k)[0] == k[0],
{
    let l = integer_length(k[0]);
    let ip = integer_part(k);
    let fp = fraction_part(k);
    assert(k =~= ip + fp);
    assert forall|i: int| 0 <= i < ip.drop_first().len() implies is_digit(
        #[trigger] ip.drop_first()[i],
    ) by {
        assert(ip.drop_first()[i] == k.drop_first()[i]);
    }
    assert forall|i: int| 0 <= i < fp.len() implies is_digit(#[trigger] fp[i]) by {
        assert(fp[i] == k.drop_first()[l + i - 1]);
    }
    if fp.len() > 0 {
        assert(fp.last() == k.last());
    }
}

/// An integer part followed by a non-empty valid fraction is a valid key.
proof fn lemma_key_with_fraction(ip: Seq<u8>, m: Seq<u8>)
    requires
        valid_integer(ip),
        all_digits(ip.drop_first()),
        valid_fraction(m),
        m.len() > 0,
    ensures
        valid_key(ip + m),
{
    let k = ip + m;
    assert(k.drop_first() =~= ip.drop_first() + m);
    lemma_all_digits_concat(ip.drop_first(), m);
    assert(k.last() == m.last());
    if k == smallest_integer_spec() {
        assert(k[0] == UPPER_A);
        assert(k.len() == smallest_integer_spec().len());
    }
}

/// A valid integer part other than the sentinel is a valid key on its own.
proof fn lemma_integer_key(ip: Seq<u8>)
    requires
        valid_integer(ip),
        all_digits(ip.drop_first()),
        ip != smallest_integer_spec(),
    ensures
        valid_key(ip),
{
}

proof fn first_difference(x: Seq<u8>, y: Seq<u8>) -> (k: int)
    requires
        x.len() == y.len(),
        x != y,
    ensures
        0 <= k < x.len(),
        x.subrange(0, k) == y.subrange(0, k),
        x[k] != y[k],
    decreases x.len(),
{
    if x.len() == 0 {
        assert(x =~= y);
        0
    } else if x[0] != y[0] {
        assert(x.subrange(0, 0) =~= y.subrange(0, 0));
        0
    } else {
        if x.drop_first() == y.drop_first() {
            assert forall|i: int| 0 <= i < x.len() implies x[i] == y[i] by {
                if i > 0 {
                    assert(x[i] == x.drop_first()[i - 1]);
                    assert(y[i] == y.drop_first()[i - 1]);
                }
            }
            assert(x =~= y);
        }
        let k = first_difference(x.drop_first(), y.drop_first());
        assert(x.subrange(0, k + 1) =~= seq![x[0]] + x.drop_first().subrange(0, k));
        assert(y.subrange(0, k + 1) =~= seq![y[0]] + y.drop_first().subrange(0, k));
        k + 1
    }
}

/// When two ordered keys have different integer parts, anything that starts
/// with the smaller key's integer part still sorts before the larger key.
proof fn lemma_integer_part_before(a: Seq<u8>, b: Seq<u8>, s: Seq<u8>)
    requires
        valid_key(a),
        valid_key(b),
        integer_part(a) != integer_part(b),
        lex_lt(a, b),
    ensures
        lex_lt(integer_part(a) + s, b),
        !(integer_part(a)[0] == MAX_DIGIT && forall|i: int|
            1 <= i < integer_part(a).len() ==> integer_part(a)[i] == MAX_DIGIT),
{
    let ia = integer_part(a);
    let ib = integer_part(b);
    let x = ia + s;
    lemma_key_parts(a);
    lemma_key_parts(b);
    if a[0] == b[0] {
        let k = first_difference(ia, ib);
        assert(a.subrange(0, k) =~= ia.subrange(0, k));
        assert(b.subrange(0, k) =~= ib.subrange(0, k));
        assert(a[k] == ia[k]);
        assert(b[k] == ib[k]);
        lemma_lex_lt_at_difference(a, b, k);
        assert(x.subrange(0, k) =~= b.subrange(0, k));
        assert(x[k] == a[k]);
        lemma_lex_lt_first_difference(x, b, k);
        if k > 0 {
            assert(is_digit(b.drop_first()[k - 1]));
        }
    } else {
        assert(a.subrange(0, 0) =~= b.subrange(0, 0));
        lemma_lex_lt_at_difference(a, b, 0);
        assert(x.subrange(0, 0) =~= b.subrange(0, 0));
        lemma_lex_lt_first_difference(x, b, 0);
    }
}

/// The central law: for well-formed, ordered bounds the generator produces a
/// key strictly between them, and that key is itself valid unless it is the
/// sentinel reached by prepending before `"A00…01"`.
pub proof fn lemma_key_between(a: Option<Seq<u8>>, b: Option<Seq<u8>>)
    requires
        bounds_ok(a, b),
    ensures
        spec_key_between(a, b) is Some,
        strictly_between(a, spec_key_between(a, b)->0, b),
        valid_key(spec_key_between(a, b)->0) || (a is None && b is Some
            && spec_key_between(a, b)->0 == smallest_integer_spec()),
{
    match (a, b) {
        (None, None) => {
            let k = seq![LOWER_A, ZERO];
            assert(k.drop_first() =~= seq![ZERO]);
            if k == smallest_integer_spec() {
                assert(k.len() == smallest_integer_spec().len());
            }
        },
        (None, Some(b)) => {
            lemma_key_parts(b);
            let ib = integer_part(b);
            let fb = fraction_part(b);
            if ib == smallest_integer_spec() {
                if fb.len() == 0 {
                    assert(b =~= ib);
                }
                lemma_midpoint(Seq::empty(), Some(fb));
                let m = spec_midpoint(Seq::empty(), Some(fb));
                lemma_lex_lt_common_prefix(ib, m, fb);
                lemma_key_with_fraction(ib, m);
            } else if fb.len() > 0 {
                lemma_lex_lt_proper_prefix(ib, fb);
                lemma_integer_key(ib);
            } else {
                assert(b =~= ib);
                lemma_decrement(ib);
                let r = spec_decrement(ib)->0;
                if r != smallest_integer_spec() {
                    lemma_integer_key(r);
                }
            }
        },
        (Some(a), None) => {
            lemma_key_parts(a);
            let ia = integer_part(a);
            let fa = fraction_part(a);
            lemma_increment(ia, fa);
            match spec_increment(ia) {
                None => {
                    lemma_midpoint(fa, None);
                    let m = spec_midpoint(fa, None);
                    lemma_lex_lt_common_prefix(ia, fa, m);
                    lemma_key_with_fraction(ia, m);
                },
                Some(i) => {
                    lemma_integer_key(i);
                },
            }
        },
        (Some(a), Some(b)) => {
            lemma_key_parts(a);
            lemma_key_parts(b);
            let ia = integer_part(a);
            let fa = fraction_part(a);
            let ib = integer_part(b);
            let fb = fraction_part(b);
            if ia == ib {
                if fb.len() == 0 {
                    assert(b =~= ib);
                    lemma_lex_lt_not_before_prefix(ia, fa);
                }
                lemma_lex_lt_common_prefix(ia, fa, fb);
                lemma_midpoint(fa, Some(fb));
                let m = spec_midpoint(fa, Some(fb));
                lemma_lex_lt_common_prefix(ia, fa, m);
                lemma_lex_lt_common_prefix(ia, m, fb);
                lemma_key_with_fraction(ia, m);
            } else {
                lemma_increment(ia, fa);
                lemma_integer_part_before(a, b, Seq::empty());
                let i = spec_increment(ia)->0;
                lemma_integer_key(i);
                if !lex_lt(i, b) {
                    lemma_midpoint(fa, None);
                    let m = spec_midpoint(fa, None);
                    lemma_lex_lt_common_prefix(ia, fa, m);
                    lemma_integer_part_before(a, b, m);
                    lemma_key_with_fraction(ia, m);
                }
            }
        },
    }
}

/// The recursive step of the midpoint under a shared non-empty prefix keeps
/// the midpoint's preconditions.
proof fn lemma_midpoint_prefix_step(a: Seq<u8>, bb: Seq<u8>, n: int)
    requires
        valid_fraction(a),
        bb.len() > 0,
        valid_fraction(bb),
        lex_lt(a, bb),
        n == padded_prefix(a, bb, 0),
        n > 0,
    ensures
        n < bb.len(),
        valid_fraction(tail_from(a, n)),
        valid_fraction(bb.subrange(n, bb.len() as int)),
        lex_lt(tail_from(a, n), bb.subrange(n, bb.len() as int)),
{
    lemma_padded_prefix(a, bb, 0);
    let pre = bb.subrange(0, n);
    let rest_a = tail_from(a, n);
    let rest_b = bb.subrange(n, bb.len() as int);
    lemma_valid_fraction_tail(a, n);
    lemma_valid_fraction_tail(bb, n);
    if a.len() <= n {
        assert(a =~= bb.subrange(0, a.len() as int));
        if n == bb.len() {
            if n > a.len() {
                assert(bb.last() == pad_at(a, n - 1));
            } else {
                assert(a =~= bb);
                lemma_lex_lt_irreflexive(a);
            }
        }
        assert(rest_a =~= Seq::<u8>::empty());
    } else {
        assert(a =~= pre + rest_a);
        if n == bb.len() {
            assert(bb =~= pre);
            lemma_lex_lt_not_before_prefix(pre, rest_a);
        }
        assert(bb =~= pre + rest_b);
        lemma_lex_lt_common_prefix(pre, rest_a, rest_b);
    }
    assert(tail_from(bb, n) == rest_b);
}

/// In the first-digit case the first digits of the bounds are ordered.
proof fn lemma_midpoint_first_digits(a: Seq<u8>, b: Option<Seq<u8>>)
    requires
        valid_fraction(a),
        b matches Some(bb) ==> bb.len() > 0 && valid_fraction(bb) && lex_lt(a, bb)
            && padded_prefix(a, bb, 0) == 0,
    ensures
        ({
            let da = if a.len() > 0 {
                digit_value(a[0])
            } else {
                0
            };
            let db = match b {
                Some(bb) => digit_value(bb[0]),
                None => 62,
            };
            0 <= da < db <= 62
        }),
{
    if a.len() > 0 {
        lemma_digit(a[0]);
    }
    if let Some(bb) = b {
        lemma_padded_prefix(a, bb, 0);
        lemma_digit(bb[0]);
        if a.len() > 0 {
            assert(a.subrange(0, 0) =~= bb.subrange(0, 0));
            lemma_lex_lt_at_difference(a, bb, 0);
            lemma_digit_order(a[0], bb[0]);
        }
    }
}

proof fn lemma_padded_prefix_value(a: Seq<u8>, b: Seq<u8>, k: int, n: int)
    requires
        0 <= k <= n <= b.len(),
        forall|i: int| k <= i < n ==> pad_at(a, i) == b[i],
        n == b.len() || pad_at(a, n) != b[n],
    ensures
        padded_prefix(a, b, k) == n,
    decreases n - k,
{
    if k < n {
        lemma_padded_prefix_value(a, b, k + 1, n);
    }
}

// ---------------------------------------------------------------------------
// Executable code
// ---------------------------------------------------------------------------

pub open spec fn opt_view(k: Option<&[u8]>) -> Option<Seq<u8>> {
    match k {
        Some(s) => Some(s@),
        None => None,
    }
}

pub open spec fn opt_vec_view(k: Option<Vec<u8>>) -> Option<Seq<u8>> {
    match k {
        Some(s) => Some(s@),
        None => None,
    }
}

/// Index in the alphabet of a digit byte (== its value), or `None`.
fn digit_index(c: u8) -> (r: Option<usize>)
    ensures
        r matches Some(v) ==> is_digit(c) && v == digit_value(c),
        r is None ==> !is_digit(c),
{
    if ZERO <= c && c <= NINE {
        Some((c - ZERO) as usize)
    } else if UPPER_A <= c && c <= UPPER_Z {
        Some((c - UPPER_A) as usize + 10)
    } else if LOWER_A <= c && c <= MAX_DIGIT {
        Some((c - LOWER_A) as usize + 36)
    } else {
        None
    }
}

/// The value of a byte known to be a digit.
fn digit_value_of(c: u8) -> (r: usize)
    requires
        is_digit(c),
    ensures
        r == digit_value(c),
        r < 62,
{
    match digit_index(c) {
        Some(v) => v,
        None => 0,
    }
}

/// The digit byte of value `v`.
fn digit_at(v: usize) -> (r: u8)
    requires
        v < 62,
    ensures
        r == digit_byte(v as int),
{
    if v < 10 {
        (v as u8) + ZERO
    } else if v < 36 {
        (v as u8) - 10 + UPPER_A
    } else {
        (v as u8) - 36 + LOWER_A
    }
}

/// Length (including the head byte) of the integer part with this head.
fn get_integer_length(head: u8) -> (r: Option<usize>)
    ensures
        r matches Some(l) ==> integer_length(head) == l && l >= 2,
        r is None ==> integer_length(head) == -1,
{
    if LOWER_A <= head && head <= MAX_DIGIT {
        Some((head - LOWER_A) as usize + 2)
    } else if UPPER_A <= head && head <= UPPER_Z {
        Some((UPPER_Z - head) as usize + 2)
    } else {
        None
    }
}

fn smallest_integer_bytes() -> (r: Vec<u8>)
    ensures
        r@ == smallest_integer_spec(),
{
    let mut s: Vec<u8> = Vec::new();
    s.push(UPPER_A);
    let mut i: usize = 0;
    while i < 26
        invariant
            i <= 26,
            s@ == seq![UPPER_A] + Seq::new(i as nat, |k: int| ZERO),
        decreases 26 - i,
    {
        s.push(ZERO);
        assert(seq![UPPER_A] + Seq::new((i + 1) as nat, |k: int| ZERO) =~= (seq![UPPER_A] + Seq::new(
            i as nat,
            |k: int| ZERO,
        )).push(ZERO));
        i = i + 1;
    }
    s
}

/// The sentinel smallest integer part, `"A" + "0".repeat(26)`, rejected as a key.
pub fn smallest_integer() -> (r: String)
    ensures
        r@ == chars_of(smallest_integer_spec()),
{
    let s = smallest_integer_bytes();
    string_from_bytes(s.as_slice())
}

fn is_smallest(k: &[u8]) -> (r: bool)
    ensures
        r == (k@ == smallest_integer_spec()),
{
    let s = smallest_integer_bytes();
    compare_bytes(k, s.as_slice()) == 0
}

fn all_digits_from(k: &[u8], start: usize) -> (r: bool)
    requires
        start <= k@.len(),
    ensures
        r == all_digits(k@.subrange(start as int, k@.len() as int)),
{
    let mut i = start;
    while i < k.len()
        invariant
            start <= i <= k@.len(),
            forall|j: int| start <= j < i ==> is_digit(#[trigger] k@[j]),
        decreases k@.len() - i,
    {
        if digit_index(k[i]).is_none() {
            assert(k@.subrange(start as int, k@.len() as int)[i - start] == k@[i as int]);
            return false;
        }
        i = i + 1;
    }
    assert forall|j: int| 0 <= j < k@.len() - start implies is_digit(
        #[trigger] k@.subrange(start as int, k@.len() as int)[j],
    ) by {
        assert(k@.subrange(start as int, k@.len() as int)[j] == k@[start + j]);
    }
    true
}

/// Whether `x` is a well-formed whole integer part.
fn is_valid_integer(x: &[u8]) -> (r: bool)
    ensures
        r == valid_integer(x@),
{
    if x.len() == 0 {
        return false;
    }
    match get_integer_length(x[0]) {
        Some(l) => l == x.len(),
        None => false,
    }
}

/// Whether `k` is a complete, well-formed order key.
fn is_valid_key(k: &[u8]) -> (r: bool)
    ensures
        r == valid_key(k@),
{
    if is_smallest(k) {
        return false;
    }
    if k.len() == 0 {
        return false;
    }
    let l = match get_integer_length(k[0]) {
        Some(l) => l,
        None => return false,
    };
    if l > k.len() {
        return false;
    }
    assert(k@.subrange(1, k@.len() as int) =~= k@.drop_first());
    if !all_digits_from(k, 1) {
        return false;
    }
    if k.len() > l && k[k.len() - 1] == ZERO {
        return false;
    }
    true
}

/// The first byte of `s` that is not a digit.
pub open spec fn first_non_digit(s: Seq<u8>) -> u8
    decreases s.len(),
{
    if s.len() == 0 {
        0
    } else if !is_digit(s[0]) {
        s[0]
    } else {
        first_non_digit(s.drop_first())
    }
}

proof fn lemma_first_non_digit(s: Seq<u8>, i: int)
    requires
        0 <= i < s.len(),
        !is_digit(s[i]),
        forall|j: int| 0 <= j < i ==> is_digit(#[trigger] s[j]),
    ensures
        first_non_digit(s) == s[i],
    decreases i,
{
    if i > 0 {
        assert(is_digit(s[0]));
        lemma_first_non_digit(s.drop_first(), i - 1);
    }
}

/// Why the key with bytes `k` and text `text` is refused, in the checks'
/// order: the sentinel, an empty key, a head that is no head, a key shorter
/// than its integer part, the first non-digit, a trailing fractional zero.
pub open spec fn key_error(k: Seq<u8>, text: Seq<char>) -> Seq<char> {
    if k == smallest_integer_spec() {
        "invalid order key: "@ + debug_str(text)
    } else if k.len() == 0 {
        "invalid order key: empty"@
    } else if integer_length(k[0]) < 0 {
        "invalid order key head: "@ + debug_char(k[0] as char)
    } else if integer_length(k[0]) > k.len() {
        "invalid order key: "@ + debug_str(text)
    } else if !all_digits(k.drop_first()) {
        "invalid order-key digit: "@ + debug_char(first_non_digit(k.drop_first()) as char)
    } else {
        "invalid order key: "@ + debug_str(text)
    }
}

/// The error for bounds that [`bounds_ok`] refuses: the first malformed key,
/// else the two keys out of order.
pub open spec fn bounds_error(a: Option<&str>, b: Option<&str>) -> Seq<char> {
    if a is Some && !valid_key(a->0.spec_bytes()) {
        key_error(a->0.spec_bytes(), a->0@)
    } else if b is Some && !valid_key(b->0.spec_bytes()) {
        key_error(b->0.spec_bytes(), b->0@)
    } else {
        debug_str(a->0@) + " >= "@ + debug_str(b->0@)
    }
}

/// `what` followed by the debug form of `key`.
fn debug_message(what: &str, key: &str) -> (r: String)
    ensures
        r@ == what@ + debug_str(key@),
{
    let mut s = what.to_owned();
    let d = debug_quoted(key);
    push_str(&mut s, d.as_str());
    s
}

/// `what` followed by the debug form of `c`.
fn debug_char_message(what: &str, c: char) -> (r: String)
    ensures
        r@ == what@ + debug_char(c),
{
    let mut s = what.to_owned();
    let d = debug_char_quoted(c);
    push_str(&mut s, d.as_str());
    s
}

/// Why `key` is refused (see [`key_error`]).
fn key_error_message(key: &str) -> (r: String)
    requires
        !valid_key(key.spec_bytes()),
    ensures
        r@ == key_error(key.spec_bytes(), key@),
{
    let k = key.as_bytes();
    if is_smallest(k) {
        return debug_message("invalid order key: ", key);
    }
    if k.len() == 0 {
        return "invalid order key: empty".to_owned();
    }
    let l = match get_integer_length(k[0]) {
        Some(l) => l,
        None => {
            return debug_char_message("invalid order key head: ", k[0] as char);
        },
    };
    if l > k.len() {
        return debug_message("invalid order key: ", key);
    }
    let mut i: usize = 1;
    while i < k.len()
        invariant
            1 <= i <= k@.len(),
            k@ == key.spec_bytes(),
            k@ != smallest_integer_spec(),
            0 <= integer_length(k@[0]) <= k@.len(),
            forall|j: int| 1 <= j < i ==> is_digit(#[trigger] k@[j]),
        decreases k@.len() - i,
    {
        if !(ZERO <= k[i] && k[i] <= NINE) && !(UPPER_A <= k[i] && k[i] <= UPPER_Z) && !(LOWER_A <= k[i] && k[i] <= MAX_DIGIT) {
            proof {
                let d = k@.drop_first();
                assert forall|j: int| 0 <= j < i - 1 implies is_digit(#[trigger] d[j]) by {
                    assert(d[j] == k@[j + 1]);
                }
                assert(d[i - 1] == k@[i as int]);
                lemma_first_non_digit(d, i - 1);
            }
            return debug_char_message("invalid order-key digit: ", k[i] as char);
        }
        i = i + 1;
    }
    proof {
        let d = k@.drop_first();
        assert forall|j: int| 0 <= j < d.len() implies is_digit(#[trigger] d[j]) by {
            assert(d[j] == k@[j + 1]);
        }
    }
    debug_message("invalid order key: ", key)
}

/// Validate a complete order key (rejects the smallest-integer sentinel, a
/// malformed head or length, a non-digit, and a trailing fractional zero),
/// saying which (see [`key_error`]).
pub fn validate_order_key(key: &str) -> (r: Result<(), String>)
    ensures
        r is Ok <==> valid_key(key.spec_bytes()),
        r matches Err(e) ==> e@ == key_error(key.spec_bytes(), key@),
{
    if is_valid_key(key.as_bytes()) {
        Ok(())
    } else {
        Err(key_error_message(key))
    }
}

/// Checks the bounds as [`generate_key_between`] does, with its error.
fn check_bounds(a: Option<&str>, b: Option<&str>) -> (r: Result<(), String>)
    ensures
        r is Ok <==> bounds_ok(opt_bytes(a), opt_bytes(b)),
        r matches Err(e) ==> e@ == bounds_error(a, b),
{
    if let Some(x) = a {
        validate_order_key(x)?;
    }
    if let Some(y) = b {
        validate_order_key(y)?;
    }
    if let (Some(x), Some(y)) = (a, b) {
        if compare_bytes(x.as_bytes(), y.as_bytes()) >= 0 {
            return Err(order_message(x, y));
        }
    }
    Ok(())
}

/// `head` followed by `digits`.
fn make_int(head: u8, digits: &[u8]) -> (r: Vec<u8>)
    ensures
        r@ == seq![head] + digits@,
{
    let mut r: Vec<u8> = Vec::new();
    r.push(head);
    let mut i: usize = 0;
    while i < digits.len()
        invariant
            i <= digits@.len(),
            r@ == seq![head] + digits@.subrange(0, i as int),
        decreases digits@.len() - i,
    {
        r.push(digits[i]);
        assert(digits@.subrange(0, i + 1) =~= digits@.subrange(0, i as int).push(digits@[i as int]));
        i = i + 1;
    }
    assert(digits@.subrange(0, digits@.len() as int) =~= digits@);
    r
}

fn concat(x: &[u8], y: &[u8]) -> (r: Vec<u8>)
    ensures
        r@ == x@ + y@,
{
    let mut r = copy_range(x, 0, x.len());
    let mut i: usize = 0;
    assert(x@.subrange(0, x@.len() as int) =~= x@);
    while i < y.len()
        invariant
            i <= y@.len(),
            r@ == x@ + y@.subrange(0, i as int),
        decreases y@.len() - i,
    {
        r.push(y[i]);
        assert(y@.subrange(0, i + 1) =~= y@.subrange(0, i as int).push(y@[i as int]));
        i = i + 1;
    }
    assert(y@.subrange(0, y@.len() as int) =~= y@);
    r
}

/// Increment a whole integer part (bytes) to the next integer, `Ok(None)` on
/// overflow, `Err` when the scan reads a non-digit.
fn increment_bytes(x: &[u8]) -> (r: Result<Option<Vec<u8>>, u8>)
    requires
        valid_integer(x@),
    ensures
        r is Err <==> increment_reads_bad_digit(x@),
        r matches Err(c) ==> c == increment_bad_digit(x@),
        r matches Ok(o) ==> opt_vec_view(o) == spec_increment(x@),
{
    let head = x[0];
    let mut digs = copy_range(x, 1, x.len());
    let ghost d = x@.drop_first();
    assert(digs@ =~= d);
    let mut i = digs.len();
    while i > 0 && digs[i - 1] == MAX_DIGIT
        invariant
            digs@.len() == d.len(),
            i <= d.len(),
            forall|k: int| i <= k < d.len() ==> #[trigger] d[k] == MAX_DIGIT,
            forall|k: int| i <= k < d.len() ==> #[trigger] digs@[k] == ZERO,
            forall|k: int| 0 <= k < i ==> #[trigger] digs@[k] == d[k],
        decreases i,
    {
        assert(d[i - 1] == MAX_DIGIT);
        digs.set(i - 1, ZERO);
        i = i - 1;
    }
    if i > 0 {
        let j = i - 1;
        proof {
            lemma_last_not_at(d, MAX_DIGIT, j as int);
        }
        match digit_index(digs[j]) {
            None => Err(digs[j]),
            Some(v) => {
                proof {
                    lemma_digit(d[j as int]);
                }
                let nd = digit_at(v + 1);
                digs.set(j, nd);
                assert(digs@ =~= d.subrange(0, j as int).push(nd) + fill(d.len() - j - 1, ZERO));
                Ok(Some(make_int(head, digs.as_slice())))
            },
        }
    } else {
        proof {
            lemma_last_not_at(d, MAX_DIGIT, -1);
        }
        assert(digs@ =~= fill(d.len() as int, ZERO));
        if head == UPPER_Z {
            return Ok(Some(vec![LOWER_A, ZERO]));
        }
        if head == MAX_DIGIT {
            return Ok(None);
        }
        let h = head + 1;
        if h > LOWER_A {
            digs.push(ZERO);
            assert(digs@ =~= fill(d.len() + 1int, ZERO));
        } else {
            digs.pop();
            assert(digs@ =~= fill(d.len() - 1, ZERO));
        }
        Ok(Some(make_int(h, digs.as_slice())))
    }
}

/// Decrement a whole integer part (bytes) to the previous integer, `Ok(None)`
/// on underflow, `Err` when the scan reads a non-digit.
fn decrement_bytes(x: &[u8]) -> (r: Result<Option<Vec<u8>>, u8>)
    requires
        valid_integer(x@),
    ensures
        r is Err <==> decrement_reads_bad_digit(x@),
        r matches Err(c) ==> c == decrement_bad_digit(x@),
        r matches Ok(o) ==> opt_vec_view(o) == spec_decrement(x@),
{
    let head = x[0];
    let mut digs = copy_range(x, 1, x.len());
    let ghost d = x@.drop_first();
    assert(digs@ =~= d);
    let mut i = digs.len();
    while i > 0 && digs[i - 1] == ZERO
        invariant
            digs@.len() == d.len(),
            i <= d.len(),
            forall|k: int| i <= k < d.len() ==> #[trigger] d[k] == ZERO,
            forall|k: int| i <= k < d.len() ==> #[trigger] digs@[k] == MAX_DIGIT,
            forall|k: int| 0 <= k < i ==> #[trigger] digs@[k] == d[k],
        decreases i,
    {
        assert(d[i - 1] == ZERO);
        digs.set(i - 1, MAX_DIGIT);
        i = i - 1;
    }
    if i > 0 {
        let j = i - 1;
        proof {
            lemma_last_not_at(d, ZERO, j as int);
        }
        match digit_index(digs[j]) {
            None => Err(digs[j]),
            Some(v) => {
                proof {
                    lemma_digit(d[j as int]);
                }
                let pd = digit_at(v - 1);
                digs.set(j, pd);
                assert(digs@ =~= d.subrange(0, j as int).push(pd) + fill(
                    d.len() - j - 1,
                    MAX_DIGIT,
                ));
                Ok(Some(make_int(head, digs.as_slice())))
            },
        }
    } else {
        proof {
            lemma_last_not_at(d, ZERO, -1);
        }
        assert(digs@ =~= fill(d.len() as int, MAX_DIGIT));
        if head == LOWER_A {
            return Ok(Some(vec![UPPER_Z, MAX_DIGIT]));
        }
        if head == UPPER_A {
            return Ok(None);
        }
        let h = head - 1;
        if h < UPPER_Z {
            digs.push(MAX_DIGIT);
            assert(digs@ =~= fill(d.len() + 1int, MAX_DIGIT));
        } else {
            digs.pop();
            assert(digs@ =~= fill(d.len() - 1, MAX_DIGIT));
        }
        Ok(Some(make_int(h, digs.as_slice())))
    }
}

/// Why a whole integer part is refused: empty, a head that is no head, or a
/// length other than the head announces.
pub open spec fn integer_error_text(x: Seq<u8>, text: Seq<char>) -> Seq<char> {
    if x.len() == 0 {
        "invalid integer part of order key: empty"@
    } else if integer_length(x[0]) < 0 {
        "invalid order key head: "@ + debug_char(x[0] as char)
    } else {
        "invalid integer part of order key: "@ + debug_str(text)
    }
}

/// The error for an integer part that is not well formed.
fn integer_error(x: &str) -> (r: String)
    ensures
        r@ == integer_error_text(x.spec_bytes(), x@),
{
    let k = x.as_bytes();
    if k.len() == 0 {
        "invalid integer part of order key: empty".to_owned()
    } else if get_integer_length(k[0]).is_none() {
        debug_char_message("invalid order key head: ", k[0] as char)
    } else {
        debug_message("invalid integer part of order key: ", x)
    }
}

/// Increment a whole integer part to the next integer, or `None` on overflow.
pub fn increment_integer(x: &str) -> (r: Result<Option<String>, String>)
    ensures
        r is Err <==> (!valid_integer(x.spec_bytes()) || increment_reads_bad_digit(
            x.spec_bytes(),
        )),
        !valid_integer(x.spec_bytes()) ==> (r matches Err(e) && e@ == integer_error_text(x.spec_bytes(), x@)),
        valid_integer(x.spec_bytes()) && increment_reads_bad_digit(x.spec_bytes()) ==> (r matches Err(e) && e@
            == "invalid order-key digit: "@ + debug_char(increment_bad_digit(x.spec_bytes()) as char)),
        r matches Ok(o) ==> (o is None <==> spec_increment(x.spec_bytes()) is None),
        r matches Ok(Some(s)) ==> s@ == chars_of(spec_increment(x.spec_bytes())->0),
{
    let bytes = x.as_bytes();
    if !is_valid_integer(bytes) {
        return Err(integer_error(x));
    }
    match increment_bytes(bytes) {
        Err(c) => Err(debug_char_message("invalid order-key digit: ", c as char)),
        Ok(None) => Ok(None),
        Ok(Some(v)) => Ok(Some(string_from_bytes(v.as_slice()))),
    }
}

/// Decrement a whole integer part to the previous integer, or `None` on underflow.
pub fn decrement_integer(x: &str) -> (r: Result<Option<String>, String>)
    ensures
        r is Err <==> (!valid_integer(x.spec_bytes()) || decrement_reads_bad_digit(
            x.spec_bytes(),
        )),
        !valid_integer(x.spec_bytes()) ==> (r matches Err(e) && e@ == integer_error_text(x.spec_bytes(), x@)),
        valid_integer(x.spec_bytes()) && decrement_reads_bad_digit(x.spec_bytes()) ==> (r matches Err(e) && e@
            == "invalid order-key digit: "@ + debug_char(decrement_bad_digit(x.spec_bytes()) as char)),
        r matches Ok(o) ==> (o is None <==> spec_decrement(x.spec_bytes()) is None),
        r matches Ok(Some(s)) ==> s@ == chars_of(spec_decrement(x.spec_bytes())->0),
{
    let bytes = x.as_bytes();
    if !is_valid_integer(bytes) {
        return Err(integer_error(x));
    }
    match decrement_bytes(bytes) {
        Err(c) => Err(debug_char_message("invalid order-key digit: ", c as char)),
        Ok(None) => Ok(None),
        Ok(Some(v)) => Ok(Some(string_from_bytes(v.as_slice()))),
    }
}

/// `a` read with zero padding at position `n`.
fn pad_byte(a: &[u8], n: usize) -> (r: u8)
    ensures
        r == pad_at(a@, n as int),
{
    if n < a.len() {
        a[n]
    } else {
        ZERO
    }
}

/// `s[n..]`, or empty past the end.
fn tail_bytes(s: &[u8], n: usize) -> (r: Vec<u8>)
    ensures
        r@ == tail_from(s@, n as int),
{
    if n < s.len() {
        copy_range(s, n, s.len())
    } else {
        Vec::new()
    }
}

/// Midpoint of two fractional digit strings: `a` may be empty; `b` is `None`
/// (open upper end) or a non-empty string with `a < b`; neither ends in `'0'`.
/// Returns a fraction strictly between them.
fn midpoint(a: &[u8], b: Option<&[u8]>) -> (r: Vec<u8>)
    requires
        valid_fraction(a@),
        b matches Some(bb) ==> bb@.len() > 0 && valid_fraction(bb@) && lex_lt(a@, bb@),
    ensures
        r@ == spec_midpoint(a@, opt_view(b)),
    decreases a@.len() + opt_len(opt_view(b)),
{
    if let Some(bb) = b {
        let mut n: usize = 0;
        while n < bb.len() && pad_byte(a, n) == bb[n]
            invariant
                n <= bb@.len(),
                forall|i: int| 0 <= i < n ==> pad_at(a@, i) == bb@[i],
            decreases bb@.len() - n,
        {
            n = n + 1;
        }
        proof {
            lemma_padded_prefix_value(a@, bb@, 0, n as int);
        }
        if n > 0 {
            proof {
                lemma_midpoint_prefix_step(a@, bb@, n as int);
            }
            let rest_a = tail_bytes(a, n);
            let rest_b = copy_range(bb, n, bb.len());
            let inner = midpoint(rest_a.as_slice(), Some(rest_b.as_slice()));
            let head = copy_range(bb, 0, n);
            return concat(head.as_slice(), inner.as_slice());
        }
    }
    proof {
        lemma_midpoint_first_digits(a@, opt_view(b));
    }
    let da: usize = if a.len() > 0 {
        digit_value_of(a[0])
    } else {
        0
    };
    let db: usize = match b {
        Some(bb) => digit_value_of(bb[0]),
        None => 62,
    };
    if db - da > 1 {
        return vec![digit_at((da + db + 1) / 2)];
    }
    match b {
        Some(bb) if bb.len() > 1 => {
            return vec![bb[0]];
        },
        _ => {},
    }
    let first = digit_at(da);
    let rest = tail_bytes(a, 1);
    proof {
        lemma_valid_fraction_tail(a@, 1);
    }
    let inner = midpoint(rest.as_slice(), None);
    concat(vec![first].as_slice(), inner.as_slice())
}

/// The integer part and fraction of a valid key, as owned bytes.
fn split_key(k: &[u8]) -> (r: (Vec<u8>, Vec<u8>))
    requires
        valid_key(k@),
    ensures
        r.0@ == integer_part(k@),
        r.1@ == fraction_part(k@),
{
    let l = match get_integer_length(k[0]) {
        Some(l) => l,
        None => 0,
    };
    (copy_range(k, 0, l), copy_range(k, l, k.len()))
}

/// The generator on byte strings, for bounds already validated and ordered.
fn key_between_bytes(a: Option<&[u8]>, b: Option<&[u8]>) -> (r: Vec<u8>)
    requires
        bounds_ok(opt_view(a), opt_view(b)),
    ensures
        spec_key_between(opt_view(a), opt_view(b)) == Some(r@),
{
    proof {
        lemma_key_between(opt_view(a), opt_view(b));
    }
    match a {
        None => match b {
            None => vec![LOWER_A, ZERO],
            Some(b) => {
                proof {
                    lemma_key_parts(b@);
                }
                let (ib, fb) = split_key(b);
                if is_smallest(ib.as_slice()) {
                    if fb.len() == 0 {
                        assert(b@ =~= ib@);
                    }
                    let empty: Vec<u8> = Vec::new();
                    let m = midpoint(empty.as_slice(), Some(fb.as_slice()));
                    concat(ib.as_slice(), m.as_slice())
                } else if fb.len() > 0 {
                    ib
                } else {
                    proof {
                        lemma_decrement(ib@);
                    }
                    match decrement_bytes(ib.as_slice()) {
                        Ok(Some(r)) => r,
                        _ => Vec::new(),
                    }
                }
            },
        },
        Some(a) => {
            proof {
                lemma_key_parts(a@);
            }
            let (ia, fa) = split_key(a);
            match b {
                None => {
                    proof {
                        lemma_increment(ia@, fa@);
                    }
                    match increment_bytes(ia.as_slice()) {
                        Ok(Some(i)) => i,
                        _ => {
                            let m = midpoint(fa.as_slice(), None);
                            concat(ia.as_slice(), m.as_slice())
                        },
                    }
                },
                Some(b) => {
                    proof {
                        lemma_key_parts(b@);
                    }
                    let (ib, fb) = split_key(b);
                    if compare_bytes(ia.as_slice(), ib.as_slice()) == 0 {
                        proof {
                            if fb@.len() == 0 {
                                assert(b@ =~= ib@);
                                lemma_lex_lt_not_before_prefix(ia@, fa@);
                            }
                            lemma_lex_lt_common_prefix(ia@, fa@, fb@);
                        }
                        let m = midpoint(fa.as_slice(), Some(fb.as_slice()));
                        concat(ia.as_slice(), m.as_slice())
                    } else {
                        proof {
                            lemma_increment(ia@, fa@);
                            lemma_integer_part_before(a@, b@, Seq::empty());
                        }
                        match increment_bytes(ia.as_slice()) {
                            Ok(Some(i)) => {
                                if compare_bytes(i.as_slice(), b) < 0 {
                                    i
                                } else {
                                    let m = midpoint(fa.as_slice(), None);
                                    concat(ia.as_slice(), m.as_slice())
                                }
                            },
                            _ => Vec::new(),
                        }
                    }
                },
            }
        },
    }
}

/// The error for unordered bounds: both keys' debug forms around `>=`.
fn order_message(a: &str, b: &str) -> (r: String)
    ensures
        r@ == debug_str(a@) + " >= "@ + debug_str(b@),
{
    let mut s = debug_quoted(a);
    push_str(&mut s, " >= ");
    let t = debug_quoted(b);
    push_str(&mut s, t.as_str());
    s
}

/// Validate the bounds and generate the key between them.
fn generate_bytes(a: Option<&[u8]>, b: Option<&[u8]>) -> (r: Result<Vec<u8>, ()>)
    ensures
        r is Ok <==> bounds_ok(opt_view(a), opt_view(b)),
        r matches Ok(k) ==> spec_key_between(opt_view(a), opt_view(b)) == Some(k@),
{
    if let Some(x) = a {
        if !is_valid_key(x) {
            return Err(());
        }
    }
    if let Some(y) = b {
        if !is_valid_key(y) {
            return Err(());
        }
    }
    if let (Some(x), Some(y)) = (a, b) {
        if compare_bytes(x, y) >= 0 {
            return Err(());
        }
    }
    Ok(key_between_bytes(a, b))
}

fn str_bytes(k: Option<&str>) -> (r: Option<&[u8]>)
    ensures
        opt_view(r) == opt_bytes(k),
{
    match k {
        Some(s) => Some(s.as_bytes()),
        None => None,
    }
}

/// Generate a key that sorts strictly between `a` and `b`.
///
/// * `a == None` means "before the first existing key" (prepend).
/// * `b == None` means "after the last existing key" (append).
/// * both `None` gives the canonical first key, `"a0"`.
///
/// Returns `Err` exactly when `a` or `b` is malformed, or `a >= b`, saying
/// which (see [`bounds_error`]).
pub fn generate_key_between(a: Option<&str>, b: Option<&str>) -> (r: Result<String, String>)
    ensures
        r is Ok <==> bounds_ok(opt_bytes(a), opt_bytes(b)),
        r matches Err(e) ==> e@ == bounds_error(a, b),
        r matches Ok(k) ==> {
            &&& k@ == chars_of(spec_key_between(opt_bytes(a), opt_bytes(b))->0)
            &&& strictly_between(
                opt_bytes(a),
                spec_key_between(opt_bytes(a), opt_bytes(b))->0,
                opt_bytes(b),
            )
        },
{
    check_bounds(a, b)?;
    let k = match generate_bytes(str_bytes(a), str_bytes(b)) {
        Ok(k) => k,
        Err(()) => {
            return Err(String::new());
        },
    };
    proof {
        lemma_key_between(opt_bytes(a), opt_bytes(b));
    }
    Ok(string_from_bytes(k.as_slice()))
}

// ---------------------------------------------------------------------------
// Several keys at once
// ---------------------------------------------------------------------------

/// What one call of [`generate_key_between`] yields on these bounds (`None`
/// where it returns `Err`).
pub open spec fn spec_generate(a: Option<Seq<u8>>, b: Option<Seq<u8>>) -> Option<Seq<u8>> {
    if bounds_ok(a, b) {
        spec_key_between(a, b)
    } else {
        None
    }
}

/// `[c, c1, ..., ck]`, each key appended after the previous one.
pub open spec fn chain_after(c: Seq<u8>, k: nat) -> Option<Seq<Seq<u8>>>
    decreases k,
{
    if k == 0 {
        Some(seq![c])
    } else {
        match chain_after(c, (k - 1) as nat) {
            None => None,
            Some(s) => match spec_generate(Some(s.last()), None) {
                None => None,
                Some(d) => Some(s.push(d)),
            },
        }
    }
}

/// `[c, c1, ..., ck]`, each key prepended before the previous one.
pub open spec fn chain_before(c: Seq<u8>, k: nat) -> Option<Seq<Seq<u8>>>
    decreases k,
{
    if k == 0 {
        Some(seq![c])
    } else {
        match chain_before(c, (k - 1) as nat) {
            None => None,
            Some(s) => match spec_generate(None, Some(s.last())) {
                None => None,
                Some(d) => Some(s.push(d)),
            },
        }
    }
}

/// The keys [`generate_n_keys_between`] returns (`None` where it returns `Err`):
/// consecutive appends or prepends off a single bound, balanced midpoint
/// subdivision between two.
pub open spec fn spec_n_keys(a: Option<Seq<u8>>, b: Option<Seq<u8>>, n: nat) -> Option<
    Seq<Seq<u8>>,
>
    decreases n,
{
    if n == 0 {
        Some(Seq::empty())
    } else if n == 1 {
        match spec_generate(a, b) {
            None => None,
            Some(k) => Some(seq![k]),
        }
    } else if b is None {
        match spec_generate(a, b) {
            None => None,
            Some(c) => chain_after(c, (n - 1) as nat),
        }
    } else if a is None {
        match spec_generate(a, b) {
            None => None,
            Some(c) => match chain_before(c, (n - 1) as nat) {
                None => None,
                Some(s) => Some(s.reverse()),
            },
        }
    } else {
        let mid = n / 2;
        match spec_generate(a, b) {
            None => None,
            Some(c) => match spec_n_keys(a, Some(c), mid) {
                None => None,
                Some(l) => match spec_n_keys(Some(c), b, (n - mid - 1) as nat) {
                    None => None,
                    Some(r) => Some(l.push(c) + r),
                },
            },
        }
    }
}

pub open spec fn sorted_strict(ks: Seq<Seq<u8>>) -> bool {
    forall|i: int, j: int| 0 <= i < j < ks.len() ==> lex_lt(ks[i], ks[j])
}

pub open spec fn all_between(a: Option<Seq<u8>>, ks: Seq<Seq<u8>>, b: Option<Seq<u8>>) -> bool {
    forall|i: int| 0 <= i < ks.len() ==> strictly_between(a, #[trigger] ks[i], b)
}

proof fn lemma_generate(a: Option<Seq<u8>>, b: Option<Seq<u8>>)
    ensures
        spec_generate(a, b) matches Some(k) ==> strictly_between(a, k, b),
        spec_generate(a, b) is Some <==> bounds_ok(a, b),
{
    if bounds_ok(a, b) {
        lemma_key_between(a, b);
    }
}

proof fn lemma_chain_after(c: Seq<u8>, k: nat)
    ensures
        chain_after(c, k) matches Some(s) ==> {
            &&& s.len() == k + 1
            &&& s[0] == c
            &&& sorted_strict(s)
        },
    decreases k,
{
    if k > 0 {
        lemma_chain_after(c, (k - 1) as nat);
        if let Some(s) = chain_after(c, (k - 1) as nat) {
            lemma_generate(Some(s.last()), None);
            if let Some(d) = spec_generate(Some(s.last()), None) {
                let t = s.push(d);
                assert forall|i: int, j: int| 0 <= i < j < t.len() implies lex_lt(t[i], t[j]) by {
                    if j == t.len() - 1 {
                        if i < s.len() - 1 {
                            lemma_lex_lt_transitive(s[i], s.last(), d);
                        }
                    }
                }
            }
        }
    }
}

proof fn lemma_chain_before(c: Seq<u8>, k: nat)
    ensures
        chain_before(c, k) matches Some(s) ==> {
            &&& s.len() == k + 1
            &&& s[0] == c
            &&& forall|i: int, j: int| 0 <= i < j < s.len() ==> lex_lt(s[j], s[i])
        },
    decreases k,
{
    if k > 0 {
        lemma_chain_before(c, (k - 1) as nat);
        if let Some(s) = chain_before(c, (k - 1) as nat) {
            lemma_generate(None, Some(s.last()));
            if let Some(d) = spec_generate(None, Some(s.last())) {
                let t = s.push(d);
                assert forall|i: int, j: int| 0 <= i < j < t.len() implies lex_lt(t[j], t[i]) by {
                    if j == t.len() - 1 {
                        if i < s.len() - 1 {
                            lemma_lex_lt_transitive(d, s.last(), s[i]);
                        }
                    }
                }
            }
        }
    }
}

/// The law of [`generate_n_keys_between`]: `n` keys, strictly increasing, all
/// strictly between the bounds.
pub proof fn lemma_n_keys(a: Option<Seq<u8>>, b: Option<Seq<u8>>, n: nat)
    ensures
        spec_n_keys(a, b, n) matches Some(ks) ==> {
            &&& ks.len() == n
            &&& sorted_strict(ks)
            &&& all_between(a, ks, b)
        },
    decreases n,
{
    if n == 1 {
        lemma_generate(a, b);
    } else if n > 1 {
        lemma_generate(a, b);
        if b is None {
            if let Some(c) = spec_generate(a, b) {
                lemma_chain_after(c, (n - 1) as nat);
                if let Some(s) = chain_after(c, (n - 1) as nat) {
                    assert forall|i: int| 0 <= i < s.len() implies strictly_between(
                        a,
                        #[trigger] s[i],
                        b,
                    ) by {
                        if i > 0 {
                            if let Some(x) = a {
                                lemma_lex_lt_transitive(x, s[0], s[i]);
                            }
                        }
                    }
                }
            }
        } else if a is None {
            if let Some(c) = spec_generate(a, b) {
                lemma_chain_before(c, (n - 1) as nat);
                if let Some(s) = chain_before(c, (n - 1) as nat) {
                    let t = s.reverse();
                    assert forall|i: int, j: int| 0 <= i < j < t.len() implies lex_lt(
                        t[i],
                        t[j],
                    ) by {
                        assert(t[i] == s[s.len() - 1 - i]);
                        assert(t[j] == s[s.len() - 1 - j]);
                    }
                    assert forall|i: int| 0 <= i < t.len() implies strictly_between(
                        a,
                        #[trigger] t[i],
                        b,
                    ) by {
                        assert(t[i] == s[s.len() - 1 - i]);
                        if s.len() - 1 - i > 0 {
                            lemma_lex_lt_transitive(s[s.len() - 1 - i], s[0], b->0);
                        }
                    }
                }
            }
        } else {
            let mid = n / 2;
            if let Some(c) = spec_generate(a, b) {
                lemma_n_keys(a, Some(c), mid);
                lemma_n_keys(Some(c), b, (n - mid - 1) as nat);
                if let Some(l) = spec_n_keys(a, Some(c), mid) {
                    if let Some(r) = spec_n_keys(Some(c), b, (n - mid - 1) as nat) {
                        let t = l.push(c) + r;
                        let x = a->0;
                        let y = b->0;
                        assert forall|i: int| 0 <= i < t.len() implies strictly_between(
                            a,
                            #[trigger] t[i],
                            b,
                        ) by {
                            if i < l.len() {
                                assert(t[i] == l[i]);
                                assert(strictly_between(a, l[i], Some(c)));
                                lemma_lex_lt_transitive(l[i], c, y);
                            } else if i == l.len() {
                                assert(t[i] == c);
                            } else {
                                assert(t[i] == r[i - l.len() - 1]);
                                assert(strictly_between(Some(c), r[i - l.len() - 1], b));
                                lemma_lex_lt_transitive(x, c, t[i]);
                            }
                        }
                        assert forall|i: int, j: int| 0 <= i < j < t.len() implies lex_lt(
                            t[i],
                            t[j],
                        ) by {
                            if j < l.len() {
                                assert(t[i] == l[i] && t[j] == l[j]);
                            } else if j == l.len() {
                                assert(t[i] == l[i]);
                                assert(strictly_between(a, l[i], Some(c)));
                            } else if i > l.len() {
                                assert(t[i] == r[i - l.len() - 1]);
                                assert(t[j] == r[j - l.len() - 1]);
                            } else if i == l.len() {
                                assert(t[j] == r[j - l.len() - 1]);
                                assert(strictly_between(Some(c), r[j - l.len() - 1], b));
                            } else {
                                assert(t[i] == l[i]);
                                assert(t[j] == r[j - l.len() - 1]);
                                assert(strictly_between(a, l[i], Some(c)));
                                assert(strictly_between(Some(c), r[j - l.len() - 1], b));
                                lemma_lex_lt_transitive(l[i], c, t[j]);
                            }
                        }
                    }
                }
            }
        }
    }
}

proof fn lemma_chain_after_none(c: Seq<u8>, i: nat, k: nat)
    requires
        chain_after(c, i) is None,
        i <= k,
    ensures
        chain_after(c, k) is None,
    decreases k - i,
{
    if i < k {
        lemma_chain_after_none(c, i, (k - 1) as nat);
    }
}

proof fn lemma_chain_before_none(c: Seq<u8>, i: nat, k: nat)
    requires
        chain_before(c, i) is None,
        i <= k,
    ensures
        chain_before(c, k) is None,
    decreases k - i,
{
    if i < k {
        lemma_chain_before_none(c, i, (k - 1) as nat);
    }
}

pub open spec fn vec_views(v: Seq<Vec<u8>>) -> Seq<Seq<u8>> {
    v.map_values(|k: Vec<u8>| k@)
}

pub open spec fn string_views(v: Seq<String>) -> Seq<Seq<char>> {
    v.map_values(|k: String| k@)
}

fn copy_all(v: &[u8]) -> (r: Vec<u8>)
    ensures
        r@ == v@,
{
    let r = copy_range(v, 0, v.len());
    assert(v@.subrange(0, v@.len() as int) =~= v@);
    r
}

fn reversed(v: Vec<Vec<u8>>) -> (r: Vec<Vec<u8>>)
    ensures
        vec_views(r@) == vec_views(v@).reverse(),
{
    let ghost orig = vec_views(v@);
    let mut v = v;
    let mut r: Vec<Vec<u8>> = Vec::new();
    while v.len() > 0
        invariant
            vec_views(v@) == orig.subrange(0, v@.len() as int),
            vec_views(r@) == orig.subrange(v@.len() as int, orig.len() as int).reverse(),
            v@.len() <= orig.len(),
        decreases v@.len(),
    {
        let ghost k = (v@.len() - 1) as int;
        let ghost old_r = vec_views(r@);
        let ghost old_v = v@;
        assert(vec_views(old_v)[k] == orig[k]);
        let x = v.pop().unwrap();
        assert(x@ == orig[k]);
        r.push(x);
        assert(vec_views(v@) =~= orig.subrange(0, v@.len() as int));
        assert(vec_views(r@) =~= old_r.push(x@));
        assert(vec_views(r@) =~= orig.subrange(k, orig.len() as int).reverse());
    }
    assert(orig.subrange(0, orig.len() as int) =~= orig);
    r
}

/// [`generate_n_keys_between`] on byte strings.
fn n_keys_bytes(a: Option<&[u8]>, b: Option<&[u8]>, n: usize) -> (r: Result<Vec<Vec<u8>>, ()>)
    ensures
        r is Ok <==> spec_n_keys(opt_view(a), opt_view(b), n as nat) is Some,
        r matches Ok(v) ==> vec_views(v@) == spec_n_keys(opt_view(a), opt_view(b), n as nat)->0,
    decreases n,
{
    if n == 0 {
        let v: Vec<Vec<u8>> = Vec::new();
        assert(vec_views(v@) =~= Seq::<Seq<u8>>::empty());
        return Ok(v);
    }
    if n == 1 {
        let k = generate_bytes(a, b)?;
        proof {
            lemma_generate(opt_view(a), opt_view(b));
        }
        let mut v: Vec<Vec<u8>> = Vec::new();
        v.push(k);
        assert(vec_views(v@) =~= seq![v@[0]@]);
        return Ok(v);
    }
    if b.is_none() {
        proof {
            lemma_generate(opt_view(a), opt_view(b));
        }
        let c = generate_bytes(a, b)?;
        let ghost c0 = c@;
        let mut result: Vec<Vec<u8>> = Vec::new();
        result.push(copy_all(c.as_slice()));
        assert(vec_views(result@) =~= seq![c0]);
        let mut cur = c;
        let mut i: usize = 0;
        while i < n - 1
            invariant
                n > 1,
                b is None,
                i <= n - 1,
                chain_after(c0, i as nat) == Some(vec_views(result@)),
                spec_generate(opt_view(a), opt_view(b)) == Some(c0),
                vec_views(result@).len() > 0,
                cur@ == vec_views(result@).last(),
            decreases n - 1 - i,
        {
            proof {
                lemma_generate(Some(cur@), None);
            }
            match generate_bytes(Some(cur.as_slice()), None) {
                Err(e) => {
                    proof {
                        lemma_chain_after_none(c0, (i + 1) as nat, (n - 1) as nat);
                    }
                    return Err(e);
                },
                Ok(d) => {
                    let ghost old_views = vec_views(result@);
                    result.push(copy_all(d.as_slice()));
                    assert(vec_views(result@) =~= old_views.push(d@));
                    cur = d;
                },
            }
            i = i + 1;
        }
        return Ok(result);
    }
    if a.is_none() {
        proof {
            lemma_generate(opt_view(a), opt_view(b));
        }
        let c = generate_bytes(a, b)?;
        let ghost c0 = c@;
        let mut result: Vec<Vec<u8>> = Vec::new();
        result.push(copy_all(c.as_slice()));
        assert(vec_views(result@) =~= seq![c0]);
        let mut cur = c;
        let mut i: usize = 0;
        while i < n - 1
            invariant
                n > 1,
                a is None,
                b is Some,
                i <= n - 1,
                chain_before(c0, i as nat) == Some(vec_views(result@)),
                spec_generate(opt_view(a), opt_view(b)) == Some(c0),
                vec_views(result@).len() > 0,
                cur@ == vec_views(result@).last(),
            decreases n - 1 - i,
        {
            proof {
                lemma_generate(None, Some(cur@));
            }
            match generate_bytes(None, Some(cur.as_slice())) {
                Err(e) => {
                    proof {
                        lemma_chain_before_none(c0, (i + 1) as nat, (n - 1) as nat);
                    }
                    return Err(e);
                },
                Ok(d) => {
                    let ghost old_views = vec_views(result@);
                    result.push(copy_all(d.as_slice()));
                    assert(vec_views(result@) =~= old_views.push(d@));
                    cur = d;
                },
            }
            i = i + 1;
        }
        return Ok(reversed(result));
    }
    let mid = n / 2;
    proof {
        lemma_generate(opt_view(a), opt_view(b));
    }
    let c = generate_bytes(a, b)?;
    let mut left = n_keys_bytes(a, Some(c.as_slice()), mid)?;
    let mut right = n_keys_bytes(Some(c.as_slice()), b, n - mid - 1)?;
    let ghost lv = vec_views(left@);
    let ghost rv = vec_views(right@);
    left.push(c);
    left.append(&mut right);
    assert(vec_views(left@) =~= lv.push(c@) + rv);
    Ok(left)
}

/// Generate `n` distinct keys in sorted order, all strictly between `a` and `b`.
///
/// * both `None` gives `["a0", "a1", ...]`.
/// * one `None` gives consecutive "integer" keys off the non-null bound.
/// * both set gives balanced midpoint subdivision, so keys stay short.
///
/// Returns `Err` on the same conditions as [`generate_key_between`], with its
/// error; `n == 0` yields an empty vector. With well-formed bounds the one
/// failure left is a prepend that reaches the sentinel, which the next key
/// step refuses as a bound: its error names the sentinel.
pub fn generate_n_keys_between(a: Option<&str>, b: Option<&str>, n: usize) -> (r: Result<
    Vec<String>,
    String,
>)
    ensures
        r is Ok <==> spec_n_keys(opt_bytes(a), opt_bytes(b), n as nat) is Some,
        r matches Ok(v) ==> string_views(v@) == spec_n_keys(opt_bytes(a), opt_bytes(b), n as nat)->0.map_values(
            |k: Seq<u8>| chars_of(k),
        ),
        r matches Err(e) ==> e@ == if bounds_ok(opt_bytes(a), opt_bytes(b)) {
            key_error(smallest_integer_spec(), chars_of(smallest_integer_spec()))
        } else {
            bounds_error(a, b)
        },
{
    if n > 0 {
        check_bounds(a, b)?;
    }
    let keys = match n_keys_bytes(str_bytes(a), str_bytes(b), n) {
        Ok(k) => k,
        Err(()) => {
            let s = smallest_integer_bytes();
            let t = string_from_bytes(s.as_slice());
            return Err(debug_message("invalid order key: ", t.as_str()));
        },
    };
    let ghost kv = vec_views(keys@);
    let mut out: Vec<String> = Vec::new();
    let mut i: usize = 0;
    while i < keys.len()
        invariant
            i <= keys@.len(),
            kv == vec_views(keys@),
            string_views(out@) == kv.subrange(0, i as int).map_values(|k: Seq<u8>| chars_of(k)),
        decreases keys@.len() - i,
    {
        let ghost old_out = string_views(out@);
        let st = string_from_bytes(keys[i].as_slice());
        out.push(st);
        assert(string_views(out@) =~= old_out.push(st@));
        assert(kv.subrange(0, i + 1) =~= kv.subrange(0, i as int).push(kv[i as int]));
        assert(string_views(out@) =~= kv.subrange(0, i + 1).map_values(|k: Seq<u8>| chars_of(k)));
        i = i + 1;
    }
    assert(kv.subrange(0, kv.len() as int) =~= kv);
    Ok(out)
}

/// A key the generator can give: a well-formed key, or the sentinel reached
/// by prepending before `"A00…01"`.
pub open spec fn generated_key(k: Seq<u8>) -> bool {
    valid_key(k) || k == smallest_integer_spec()
}

proof fn lemma_generate_key(a: Option<Seq<u8>>, b: Option<Seq<u8>>)
    ensures
        spec_generate(a, b) matches Some(k) ==> generated_key(k),
{
    if bounds_ok(a, b) {
        lemma_key_between(a, b);
    }
}

proof fn lemma_chain_after_keys(c: Seq<u8>, k: nat)
    requires
        generated_key(c),
    ensures
        chain_after(c, k) matches Some(s) ==> forall|i: int| 0 <= i < s.len() ==> generated_key(#[trigger] s[i]),
    decreases k,
{
    if k > 0 {
        lemma_chain_after_keys(c, (k - 1) as nat);
        if let Some(s) = chain_after(c, (k - 1) as nat) {
            lemma_generate_key(Some(s.last()), None);
            if let Some(d) = spec_generate(Some(s.last()), None) {
                let t = s.push(d);
                assert(chain_after(c, k) == Some(t));
                assert forall|i: int| 0 <= i < t.len() implies generated_key(#[trigger] t[i]) by {
                    if i < s.len() {
                        assert(t[i] == s[i]);
                    }
                }
            }
        }
    } else {
        assert(seq![c][0] == c);
    }
}

proof fn lemma_chain_before_keys(c: Seq<u8>, k: nat)
    requires
        generated_key(c),
    ensures
        chain_before(c, k) matches Some(s) ==> forall|i: int| 0 <= i < s.len() ==> generated_key(#[trigger] s[i]),
    decreases k,
{
    if k > 0 {
        lemma_chain_before_keys(c, (k - 1) as nat);
        if let Some(s) = chain_before(c, (k - 1) as nat) {
            lemma_generate_key(None, Some(s.last()));
            if let Some(d) = spec_generate(None, Some(s.last())) {
                let t = s.push(d);
                assert(chain_before(c, k) == Some(t));
                assert forall|i: int| 0 <= i < t.len() implies generated_key(#[trigger] t[i]) by {
                    if i < s.len() {
                        assert(t[i] == s[i]);
                    }
                }
            }
        }
    } else {
        assert(seq![c][0] == c);
    }
}

/// Every key of [`generate_n_keys_between`] is one the generator can give:
/// well formed, or the sentinel reached by prepending before `"A00…01"`.
pub proof fn lemma_n_keys_generated(a: Option<Seq<u8>>, b: Option<Seq<u8>>, n: nat)
    ensures
        spec_n_keys(a, b, n) matches Some(ks) ==> forall|i: int| 0 <= i < ks.len() ==> generated_key(#[trigger] ks[i]),
    decreases n,
{
    lemma_generate_key(a, b);
    if n == 1 {
        if let Some(k) = spec_generate(a, b) {
            assert(seq![k][0] == k);
        }
    } else if n > 1 {
        if b is None {
            if let Some(c) = spec_generate(a, b) {
                lemma_chain_after_keys(c, (n - 1) as nat);
            }
        } else if a is None {
            if let Some(c) = spec_generate(a, b) {
                lemma_chain_before_keys(c, (n - 1) as nat);
                if let Some(s) = chain_before(c, (n - 1) as nat) {
                    let t = s.reverse();
                    assert forall|i: int| 0 <= i < t.len() implies generated_key(#[trigger] t[i]) by {
                        assert(t[i] == s[s.len() - 1 - i]);
                    }
                }
            }
        } else {
            let mid = n / 2;
            if let Some(c) = spec_generate(a, b) {
                lemma_n_keys_generated(a, Some(c), mid);
                lemma_n_keys_generated(Some(c), b, (n - mid - 1) as nat);
                if let Some(l) = spec_n_keys(a, Some(c), mid) {
                    if let Some(r) = spec_n_keys(Some(c), b, (n - mid - 1) as nat) {
                        let t = l.push(c) + r;
                        assert forall|i: int| 0 <= i < t.len() implies generated_key(#[trigger] t[i]) by {
                            if i < l.len() {
                                assert(t[i] == l[i]);
                            } else if i == l.len() {
                                assert(t[i] == c);
                            } else {
                                assert(t[i] == r[i - l.len() - 1]);
                            }
                        }
                    }
                }
            }
        }
    }
}

// ---------------------------------------------------------------------------
// The next key on top of a scene
// ---------------------------------------------------------------------------

/// The greatest `order` among `objects` in byte order (the order `String`
/// comparison decides); the first of several equal ones.
pub open spec fn top_order(objects: Seq<ObjectView>) -> Option<Seq<char>>
    decreases objects.len(),
{
    if objects.len() == 0 {
        None
    } else {
        let o = objects.last().order;
        match top_order(objects.drop_last()) {
            None => Some(o),
            Some(t) => if lex_lt(encode_utf8(t), encode_utf8(o)) {
                Some(o)
            } else {
                Some(t)
            },
        }
    }
}

/// The key just above `k`: the key generated after it, or `k` with `~`
/// appended when `k` is not a well-formed key.
pub open spec fn key_above_spec(k: Seq<char>) -> Seq<char> {
    match spec_generate(Some(encode_utf8(k)), None) {
        Some(b) => chars_of(b),
        None => k.push('~'),
    }
}

/// The order key for a new object on top of `objects`: just above the
/// greatest order there, or `"a0"` when there is none.
pub open spec fn next_order_spec(objects: Seq<ObjectView>) -> Seq<char> {
    match top_order(objects) {
        None => seq!['a', '0'],
        Some(t) => key_above_spec(t),
    }
}

/// The key just above `k`.
pub fn key_above(k: &str) -> (r: String)
    ensures
        r@ == key_above_spec(k@),
{
    match generate_key_between(Some(k), None) {
        Ok(s) => {
            proof {
                lemma_key_between(Some(encode_utf8(k@)), None);
            }
            s
        },
        Err(_) => {
            let mut s = k.to_owned();
            push_char(&mut s, '~');
            s
        },
    }
}

/// The order key for a new object on top of the scene: just above the
/// greatest `order` of its objects, or `"a0"` in an empty scene.
pub fn next_order_key(scene: &ObjectScene) -> (r: String)
    ensures
        r@ == next_order_spec(scene@.objects),
{
    let ghost objs = scene@.objects;
    let mut top: Option<usize> = None;
    let mut i: usize = 0;
    while i < scene.objects.len()
        invariant
            i <= scene.objects@.len(),
            objs == scene@.objects,
            match top {
                None => top_order(objs.subrange(0, i as int)) is None,
                Some(j) => j < i && top_order(objs.subrange(0, i as int)) == Some(objs[j as int].order),
            },
        decreases scene.objects@.len() - i,
    {
        proof {
            assert(objs.subrange(0, i + 1).drop_last() =~= objs.subrange(0, i as int));
            assert(objs[i as int] == scene.objects@[i as int]@);
        }
        let take = match top {
            None => true,
            Some(j) => {
                proof {
                    assert(objs[j as int] == scene.objects@[j as int]@);
                }
                compare_bytes(scene.objects[j].order.as_str().as_bytes(), scene.objects[i].order.as_str().as_bytes()) == -1
            },
        };
        if take {
            top = Some(i);
        }
        i = i + 1;
    }
    proof {
        assert(objs.subrange(0, objs.len() as int) =~= objs);
    }
    match top {
        None => {
            let a0 = "a0";
            proof {
                reveal_strlit("a0");
            }
            a0.to_owned()
        },
        Some(j) => {
            proof {
                assert(objs[j as int] == scene.objects@[j as int]@);
            }
            key_above(scene.objects[j].order.as_str())
        },
    }
}

/// Appending a character appends its encoding.
pub proof fn lemma_encode_push(k: Seq<char>, c: char)
    ensures
        encode_utf8(k.push(c)) == encode_utf8(k) + encode_scalar(c as u32),
    decreases k.len(),
{
    if k.len() == 0 {
        assert(k.push(c).drop_first() =~= Seq::<char>::empty());
        assert(encode_utf8(Seq::<char>::empty()) == Seq::<u8>::empty());
        assert(encode_utf8(k.push(c)) == encode_scalar(c as u32) + encode_utf8(Seq::<char>::empty()));
        assert(encode_scalar(c as u32) + Seq::<u8>::empty() =~= encode_scalar(c as u32));
        assert(Seq::<u8>::empty() + encode_scalar(c as u32) =~= encode_scalar(c as u32));
    } else {
        assert(k.push(c).drop_first() =~= k.drop_first().push(c));
        lemma_encode_push(k.drop_first(), c);
        assert(k.push(c)[0] == k[0]);
        let h = encode_scalar(k[0] as u32);
        assert(h + (encode_utf8(k.drop_first()) + encode_scalar(c as u32)) =~= (h + encode_utf8(
            k.drop_first(),
        )) + encode_scalar(c as u32));
    }
}

/// A well-formed key is ASCII, so the text of its bytes encodes back to them.
pub proof fn lemma_key_text(b: Seq<u8>)
    requires
        valid_key(b),
    ensures
        encode_utf8(chars_of(b)) == b,
{
    assert forall|i: int| 0 <= i < b.len() implies b[i] < 128 by {
        if i > 0 {
            assert(b.drop_first()[i - 1] == b[i]);
            assert(is_digit(b.drop_first()[i - 1]));
        }
    }
    let cs = chars_of(b);
    assert forall|i: int| 0 <= i < cs.len() implies '\0' <= #[trigger] cs[i] <= '\u{7f}' by {
        assert(cs[i] == b[i] as char);
    }
    assert(is_ascii_chars(cs));
    is_ascii_chars_encode_utf8(cs);
    assert forall|i: int| 0 <= i < b.len() implies encode_utf8(cs)[i] == b[i] by {
        assert(cs[i] as u8 == encode_utf8(cs)[i]);
        assert(cs[i] == b[i] as char);
    }
    assert(encode_utf8(cs) =~= b);
}

/// The key just above `k` sorts strictly after it, in byte order.
pub proof fn lemma_key_above(k: Seq<char>)
    ensures
        lex_lt(encode_utf8(k), encode_utf8(key_above_spec(k))),
{
    let a = Some(encode_utf8(k));
    if bounds_ok(a, None) {
        lemma_key_between(a, None);
        let b = spec_key_between(a, None)->0;
        lemma_key_text(b);
    } else {
        lemma_encode_push(k, '~');
        assert(encode_scalar('~' as u32) == seq![126u8]) by {
            assert('~' as u32 == 126u32);
            assert(126u32 & 0x7F == 126u32) by (bit_vector);
        }
        lemma_lex_lt_proper_prefix(encode_utf8(k), seq![126u8]);
    }
}

/// `k` is no later than `l` in byte order.
pub open spec fn key_le(k: Seq<char>, l: Seq<char>) -> bool {
    k == l || lex_lt(encode_utf8(k), encode_utf8(l))
}

/// The top order is one of the orders and no order sorts after it.
pub proof fn lemma_top_order(objects: Seq<ObjectView>)
    ensures
        top_order(objects) is None <==> objects.len() == 0,
        top_order(objects) matches Some(t) ==> forall|j: int|
            0 <= j < objects.len() ==> key_le(#[trigger] objects[j].order, t),
    decreases objects.len(),
{
    if objects.len() > 0 {
        let rest = objects.drop_last();
        lemma_top_order(rest);
        let o = objects.last().order;
        match top_order(rest) {
            None => {},
            Some(t) => {
                assert forall|j: int| 0 <= j < objects.len() implies key_le(#[trigger] objects[j].order, top_order(objects)->0) by {
                    if j < objects.len() - 1 {
                        assert(objects[j] == rest[j]);
                        assert(key_le(rest[j].order, t));
                        if lex_lt(encode_utf8(t), encode_utf8(o)) {
                            if objects[j].order != t {
                                lemma_lex_lt_transitive(encode_utf8(objects[j].order), encode_utf8(t), encode_utf8(o));
                            }
                        }
                    } else {
                        if !lex_lt(encode_utf8(t), encode_utf8(o)) {
                            lemma_lex_lt_total(encode_utf8(t), encode_utf8(o));
                            if encode_utf8(t) == encode_utf8(o) {
                                vstd::utf8::encode_utf8_decode_utf8(t);
                                vstd::utf8::encode_utf8_decode_utf8(o);
                            }
                        }
                    }
                }
            },
        }
    }
}

} // verus!
