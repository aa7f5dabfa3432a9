//! Anchored objects follow a move: when a move sets a target's transform,
//! each object anchored to it has its bound path node rewritten to where the
//! target now puts the anchor point.
//!
//! The rewrite works on the path text: its signed decimal numbers, read in
//! pairs, are the node coordinates, and the bound pair is replaced in place,
//! every other character kept. Where the anchor point lands is `f64` affine
//! arithmetic, which the caller supplies as a function.

use vstd::prelude::*;

use crate::object::model::{
    anchor_views, find_object, opt_str, Anchor, AnchorView, Geometry, GeometryView, LocalPoint, Object,
    ObjectScene, ObjectView, SubPathView, Transform3x3,
};
use crate::object::op::{op_view, op_views, ObjectOp, ObjectOpView};
use crate::object::path::{parse_path, parse_path_text};
use crate::text::{decimal, push_decimal, push_str, str_eq};

verus! {

// ---------------------------------------------------------------------------
// Number spans
// ---------------------------------------------------------------------------

pub open spec fn is_digit(c: char) -> bool {
    '0' <= c && c <= '9'
}

/// A number starts at a minus sign or a digit.
pub open spec fn starts_number(c: char) -> bool {
    c == '-' || is_digit(c)
}

/// The first position at or after `p` that holds no digit.
pub open spec fn skip_digits(d: Seq<char>, p: int) -> int
    decreases d.len() - p,
{
    if 0 <= p < d.len() && is_digit(d[p]) {
        skip_digits(d, p + 1)
    } else {
        p
    }
}

pub proof fn lemma_skip_digits(d: Seq<char>, p: int)
    requires
        0 <= p <= d.len(),
    ensures
        p <= skip_digits(d, p) <= d.len(),
        p < d.len() && is_digit(d[p]) ==> p < skip_digits(d, p),
    decreases d.len() - p,
{
    if p < d.len() && is_digit(d[p]) {
        lemma_skip_digits(d, p + 1);
    }
}

/// The end of the number starting at `start`: an optional minus sign, digits,
/// and, after a `.`, more digits.
pub open spec fn number_end(d: Seq<char>, start: int) -> int {
    let p = if d[start] == '-' {
        start + 1
    } else {
        start
    };
    let q = skip_digits(d, p);
    if q < d.len() && d[q] == '.' {
        skip_digits(d, q + 1)
    } else {
        q
    }
}

pub proof fn lemma_number_end(d: Seq<char>, start: int)
    requires
        0 <= start < d.len(),
        starts_number(d[start]),
    ensures
        start < number_end(d, start) <= d.len(),
{
    let p = if d[start] == '-' {
        start + 1
    } else {
        start
    };
    lemma_skip_digits(d, p);
    let q = skip_digits(d, p);
    if q < d.len() && d[q] == '.' {
        lemma_skip_digits(d, q + 1);
    }
}

/// The half-open spans of the numbers of `d` from position `pos` on, left to
/// right; characters between numbers are skipped.
pub open spec fn spans_from(d: Seq<char>, pos: int) -> Seq<(int, int)>
    decreases d.len() - pos,
{
    if pos < 0 || pos >= d.len() {
        seq![]
    } else if !starts_number(d[pos]) {
        spans_from(d, pos + 1)
    } else {
        let e = number_end(d, pos);
        proof {
            lemma_number_end(d, pos);
        }
        seq![(pos, e)] + spans_from(d, e)
    }
}

/// The spans of the numbers of `d`.
pub open spec fn number_spans_of(d: Seq<char>) -> Seq<(int, int)> {
    spans_from(d, 0)
}

pub open spec fn span_views(v: Seq<(usize, usize)>) -> Seq<(int, int)> {
    v.map_values(|p: (usize, usize)| (p.0 as int, p.1 as int))
}

/// The characters of `d`.
fn chars_of_str(d: &str) -> (r: Vec<char>)
    ensures
        r@ == d@,
{
    let n = d.unicode_len();
    let mut r: Vec<char> = Vec::new();
    let mut i: usize = 0;
    while i < n
        invariant
            n == d@.len(),
            i <= n,
            r@ == d@.subrange(0, i as int),
        decreases n - i,
    {
        r.push(d.get_char(i));
        proof {
            assert(r@ =~= d@.subrange(0, i + 1));
        }
        i = i + 1;
    }
    proof {
        assert(d@.subrange(0, n as int) =~= d@);
    }
    r
}

/// The first position at or after `p` in `cs` that holds no digit.
fn skip_digits_in(cs: &Vec<char>, p: usize) -> (r: usize)
    requires
        p <= cs@.len(),
    ensures
        r == skip_digits(cs@, p as int),
{
    let mut q = p;
    while q < cs.len() && '0' <= cs[q] && cs[q] <= '9'
        invariant
            p <= q <= cs@.len(),
            skip_digits(cs@, q as int) == skip_digits(cs@, p as int),
        decreases cs@.len() - q,
    {
        q = q + 1;
    }
    q
}

/// The spans (in characters, start inclusive, end exclusive) of the signed
/// decimal numbers of a path text, left to right: an optional `-`, digits,
/// and an optional `.` followed by digits.
pub fn number_spans(d: &str) -> (r: Vec<(usize, usize)>)
    ensures
        span_views(r@) == number_spans_of(d@),
{
    let cs = chars_of_str(d);
    let n = cs.len();
    let mut spans: Vec<(usize, usize)> = Vec::new();
    let mut pos: usize = 0;
    while pos < n
        invariant
            n == cs@.len(),
            cs@ == d@,
            pos <= n,
            span_views(spans@) + spans_from(cs@, pos as int) == spans_from(cs@, 0),
        decreases n - pos,
    {
        let c = cs[pos];
        if c != '-' && !('0' <= c && c <= '9') {
            pos = pos + 1;
        } else {
            let start = pos;
            proof {
                lemma_number_end(cs@, start as int);
            }
            if cs[pos] == '-' {
                pos = pos + 1;
            }
            pos = skip_digits_in(&cs, pos);
            proof {
                lemma_skip_digits(cs@, if cs@[start as int] == '-' { start + 1 } else { start as int });
            }
            if pos < n && cs[pos] == '.' {
                pos = skip_digits_in(&cs, pos + 1);
            }
            let ghost before = span_views(spans@);
            spans.push((start, pos));
            proof {
                assert(span_views(spans@) =~= before.push((start as int, pos as int)));
                assert(before.push((start as int, pos as int)) + spans_from(cs@, pos as int) =~= before + (seq![
                    (start as int, pos as int),
                ] + spans_from(cs@, pos as int)));
            }
        }
    }
    proof {
        assert(span_views(spans@) + Seq::<(int, int)>::empty() =~= span_views(spans@));
    }
    spans
}

// ---------------------------------------------------------------------------
// Rewriting one node
// ---------------------------------------------------------------------------

/// The end of the span before span `k`, or `0` for the first.
pub open spec fn end_before(s: Seq<(int, int)>, k: int) -> int {
    if k == 0 {
        0
    } else {
        s[k - 1].1
    }
}

/// The text span `k` becomes: node `node`'s coordinates (spans `2 node` and
/// `2 node + 1`) become the decimal `x` and `y`; every other span is kept.
pub open spec fn span_text(d: Seq<char>, s: Seq<(int, int)>, k: int, node: int, x: i64, y: i64) -> Seq<char> {
    if k == 2 * node {
        decimal(x as int)
    } else if k == 2 * node + 1 {
        decimal(y as int)
    } else {
        d.subrange(s[k].0, s[k].1)
    }
}

/// The text of `d` up to the end of span `j - 1`, with node `node` rewritten.
pub open spec fn rewritten_upto(d: Seq<char>, s: Seq<(int, int)>, j: int, node: int, x: i64, y: i64) -> Seq<char>
    decreases j,
{
    if j <= 0 {
        seq![]
    } else {
        rewritten_upto(d, s, j - 1, node, x, y) + d.subrange(end_before(s, j - 1), s[j - 1].0) + span_text(
            d,
            s,
            j - 1,
            node,
            x,
            y,
        )
    }
}

/// `d` with node `node`'s coordinates rewritten to `x` and `y`.
pub open spec fn rewritten(d: Seq<char>, node: int, x: i64, y: i64) -> Seq<char> {
    let s = number_spans_of(d);
    rewritten_upto(d, s, s.len() as int, node, x, y) + d.subrange(end_before(s, s.len() as int), d.len() as int)
}

/// Some coordinate of node `node` is addressed and its text changes.
pub open spec fn node_changes(d: Seq<char>, node: int, x: i64, y: i64) -> bool {
    let s = number_spans_of(d);
    ||| (2 * node < s.len() && d.subrange(s[2 * node].0, s[2 * node].1) != decimal(x as int))
    ||| (2 * node + 1 < s.len() && d.subrange(s[2 * node + 1].0, s[2 * node + 1].1) != decimal(y as int))
}

/// The path text with node `node` moved to `(x, y)`, or `None` when the text
/// has no such node or already holds those coordinates.
pub open spec fn set_path(d: Seq<char>, node: int, x: i64, y: i64) -> Option<Seq<char>> {
    if node_changes(d, node, x, y) {
        Some(rewritten(d, node, x, y))
    } else {
        None
    }
}

proof fn lemma_spans_from_ordered(d: Seq<char>, pos: int)
    requires
        0 <= pos,
    ensures
        forall|k: int|
            0 <= k < spans_from(d, pos).len() ==> pos <= #[trigger] spans_from(d, pos)[k].0 < spans_from(
                d,
                pos,
            )[k].1 <= d.len(),
        forall|k: int|
            0 < k < spans_from(d, pos).len() ==> #[trigger] spans_from(d, pos)[k - 1].1 <= spans_from(d, pos)[k].0,
    decreases d.len() - pos,
{
    if pos < d.len() {
        let s = spans_from(d, pos);
        if !starts_number(d[pos]) {
            lemma_spans_from_ordered(d, pos + 1);
            assert(s == spans_from(d, pos + 1));
        } else {
            let e = number_end(d, pos);
            lemma_number_end(d, pos);
            lemma_spans_from_ordered(d, e);
            let t = spans_from(d, e);
            assert(s =~= seq![(pos, e)] + t);
            assert forall|k: int| 0 <= k < s.len() implies pos <= #[trigger] s[k].0 < s[k].1 <= d.len() by {
                if k > 0 {
                    assert(s[k] == t[k - 1]);
                }
            }
            assert forall|k: int| 0 < k < s.len() implies #[trigger] s[k - 1].1 <= s[k].0 by {
                assert(s[k] == t[k - 1]);
                if k > 1 {
                    assert(s[k - 1] == t[k - 2]);
                } else {
                    assert(e <= t[0].0);
                }
            }
        }
    }
}

/// Node `node_index` of the path text `d` (its coordinate pair, counting the
/// numbers of the text in pairs) rewritten to the decimal `x` and `y`, every
/// other character kept; `None` when the text has no such node or the node
/// already reads `(x, y)`.
pub fn set_path_node(d: &str, node_index: u32, x: i64, y: i64) -> (r: Option<String>)
    ensures
        r matches Some(t) ==> set_path(d@, node_index as int, x, y) == Some(t@),
        r is None ==> set_path(d@, node_index as int, x, y) is None,
{
    let spans = number_spans(d);
    let ghost s = number_spans_of(d@);
    let ghost node = node_index as int;
    proof {
        lemma_spans_from_ordered(d@, 0);
    }
    let mut out = String::new();
    let mut last: usize = 0;
    let mut changed = false;
    let mut k: usize = 0;
    while k < spans.len()
        invariant
            span_views(spans@) == s,
            s == number_spans_of(d@),
            node == node_index as int,
            k <= s.len(),
            last as int == end_before(s, k as int),
            out@ == rewritten_upto(d@, s, k as int, node, x, y),
            forall|j: int| 0 <= j < s.len() ==> 0 <= #[trigger] s[j].0 < s[j].1 <= d@.len(),
            forall|j: int| 0 < j < s.len() ==> #[trigger] s[j - 1].1 <= s[j].0,
            changed == ((2 * node < k && d@.subrange(s[2 * node].0, s[2 * node].1) != decimal(x as int)) || (2
                * node + 1 < k && d@.subrange(s[2 * node + 1].0, s[2 * node + 1].1) != decimal(y as int))),
        decreases s.len() - k,
    {
        let (start, end) = spans[k];
        proof {
            assert(s[k as int] == (start as int, end as int));
            if k > 0 {
                assert(s[k - 1].1 <= s[k as int].0);
            }
        }
        push_str(&mut out, d.substring_char(last, start));
        let old_text = d.substring_char(start, end);
        let pair = k / 2;
        let is_x = k % 2 == 0;
        let at_target = pair as u64 == node_index as u64;
        if at_target {
            let mut replacement = String::new();
            if is_x {
                push_decimal(&mut replacement, x);
            } else {
                push_decimal(&mut replacement, y);
            }
            if !str_eq(old_text, replacement.as_str()) {
                changed = true;
            }
            push_str(&mut out, replacement.as_str());
        } else {
            push_str(&mut out, old_text);
        }
        last = end;
        k = k + 1;
    }
    push_str(&mut out, d.substring_char(last, d.unicode_len()));
    if changed {
        Some(out)
    } else {
        None
    }
}

// ---------------------------------------------------------------------------
// Following a move
// ---------------------------------------------------------------------------

/// `reproject` is defined everywhere and gives one result for each follower
/// transform, target transform and anchor point.
pub open spec fn reprojects<R: Fn(&Transform3x3, &Transform3x3, LocalPoint) -> (i64, i64)>(reproject: R) -> bool {
    &&& forall|f: &Transform3x3, t: &Transform3x3, at: LocalPoint| #[trigger] reproject.requires((f, t, at))
    &&& forall|f: &Transform3x3, t: &Transform3x3, at: LocalPoint, r1: (i64, i64), r2: (i64, i64)|
        #[trigger] reproject.ensures((f, t, at), r1) && #[trigger] reproject.ensures((f, t, at), r2) ==> r1 == r2
}

/// The follower-local quantized position `reproject` gives for the anchor
/// point `at` of a target with transform `t`, on a follower with transform `f`.
pub open spec fn reprojected_by<R: Fn(&Transform3x3, &Transform3x3, LocalPoint) -> (i64, i64)>(
    reproject: R,
) -> spec_fn(Transform3x3, Transform3x3, LocalPoint) -> (i64, i64) {
    |f: Transform3x3, t: Transform3x3, at: LocalPoint| choose|r: (i64, i64)| reproject.ensures((&f, &t, at), r)
}

pub(crate) proof fn lemma_reprojected_by<R: Fn(&Transform3x3, &Transform3x3, LocalPoint) -> (i64, i64)>(
    reproject: R,
    f: Transform3x3,
    t: Transform3x3,
    at: LocalPoint,
    r: (i64, i64),
)
    requires
        reprojects(reproject),
        reproject.ensures((&f, &t, at), r),
    ensures
        (reprojected_by(reproject))(f, t, at) == r,
{
    let c = choose|c: (i64, i64)| reproject.ensures((&f, &t, at), c);
    assert(reproject.ensures((&f, &t, at), c));
}

/// `compose` is defined everywhere and gives one transform for each pair.
pub open spec fn composes<C: Fn(&Transform3x3, &Transform3x3) -> Transform3x3>(compose: C) -> bool {
    &&& forall|a: &Transform3x3, b: &Transform3x3| #[trigger] compose.requires((a, b))
    &&& forall|a: &Transform3x3, b: &Transform3x3, r1: Transform3x3, r2: Transform3x3|
        #[trigger] compose.ensures((a, b), r1) && #[trigger] compose.ensures((a, b), r2) ==> r1 == r2
}

/// The transform `compose` gives for `delta` applied after `target`.
pub open spec fn composed_by<C: Fn(&Transform3x3, &Transform3x3) -> Transform3x3>(
    compose: C,
) -> spec_fn(Transform3x3, Transform3x3) -> Transform3x3 {
    |delta: Transform3x3, target: Transform3x3| choose|r: Transform3x3| compose.ensures((&delta, &target), r)
}

/// The live preview of one anchored node while its target is dragged: node
/// `node_index` of the path text `d` moved to where the anchor point `at`
/// lands once the target's transform is moved by `delta`, through the same
/// reprojection as a committed follow; `None` when `d` has no such node or
/// already holds it there.
pub fn reproject_geometry_node<
    R: Fn(&Transform3x3, &Transform3x3, LocalPoint) -> (i64, i64),
    C: Fn(&Transform3x3, &Transform3x3) -> Transform3x3,
>(
    follower: &Transform3x3,
    target: &Transform3x3,
    delta: &Transform3x3,
    at: LocalPoint,
    node_index: u32,
    d: &str,
    reproject: &R,
    compose: &C,
) -> (r: Option<String>)
    requires
        reprojects(*reproject),
        composes(*compose),
    ensures
        ({
            let q = (reprojected_by(*reproject))(*follower, (composed_by(*compose))(*delta, *target), at);
            opt_str(r) == set_path(d@, node_index as int, q.0, q.1)
        }),
{
    let moved = compose(delta, target);
    proof {
        let c = choose|c: Transform3x3| compose.ensures((delta, target), c);
        assert(compose.ensures((delta, target), c));
        assert((composed_by(*compose))(*delta, *target) == moved);
    }
    let q = reproject(follower, &moved, at);
    proof {
        lemma_reprojected_by(*reproject, *follower, moved, at, q);
    }
    set_path_node(d, node_index, q.0, q.1)
}

/// `deform` is defined everywhere and gives one result (by text) for each
/// path text and pair of new endpoints.
pub open spec fn deforms<D: Fn(&str, Option<(i64, i64)>, Option<(i64, i64)>) -> Option<String>>(deform: D) -> bool {
    &&& forall|d: &str, s: Option<(i64, i64)>, e: Option<(i64, i64)>| #[trigger] deform.requires((d, s, e))
    &&& forall|d1: &str, d2: &str, s: Option<(i64, i64)>, e: Option<(i64, i64)>, r1: Option<String>, r2: Option<String>|
        d1@ == d2@ && #[trigger] deform.ensures((d1, s, e), r1) && #[trigger] deform.ensures((d2, s, e), r2) ==> opt_str(r1)
            == opt_str(r2)
}

/// The path text `deform` gives for a path, a new start and a new end (each
/// `None` where that endpoint stays).
pub open spec fn deformed_by<D: Fn(&str, Option<(i64, i64)>, Option<(i64, i64)>) -> Option<String>>(
    deform: D,
) -> spec_fn(Seq<char>, Option<(i64, i64)>, Option<(i64, i64)>) -> Option<Seq<char>> {
    |d: Seq<char>, s: Option<(i64, i64)>, e: Option<(i64, i64)>|
        opt_str((choose|x: &str, r: Option<String>| x@ == d && #[trigger] deform.ensures((x, s, e), r)).1)
}

pub(crate) proof fn lemma_deformed_by<D: Fn(&str, Option<(i64, i64)>, Option<(i64, i64)>) -> Option<String>>(
    deform: D,
    d: &str,
    s: Option<(i64, i64)>,
    e: Option<(i64, i64)>,
    r: Option<String>,
)
    requires
        deforms(deform),
        deform.ensures((d, s, e), r),
    ensures
        (deformed_by(deform))(d@, s, e) == opt_str(r),
{
    let c = choose|x: &str, q: Option<String>| x@ == d@ && #[trigger] deform.ensures((x, s, e), q);
    assert(deform.ensures((c.0, s, e), c.1));
}

/// The transform of the last `set-transform` of `ops` that names `id`, when
/// `id` names an object of `objects` (the move that wins).
pub open spec fn last_move(objects: Seq<ObjectView>, ops: Seq<ObjectOpView>, id: Seq<char>) -> Option<Transform3x3>
    decreases ops.len(),
{
    if ops.len() == 0 || find_object(objects, id) is None {
        None
    } else {
        match ops.last() {
            ObjectOpView::SetTransform { id: i, transform } => if i == id {
                Some(transform)
            } else {
                last_move(objects, ops.drop_last(), id)
            },
            _ => last_move(objects, ops.drop_last(), id),
        }
    }
}

/// Some `edit-geometry` of `ops` rewrites `id`.
pub open spec fn edited_in(ops: Seq<ObjectOpView>, id: Seq<char>) -> bool {
    exists|k: int| 0 <= k < ops.len() && (#[trigger] ops[k]) is EditGeometry && ops[k]->EditGeometry_id == id
}

/// The number of coordinate pairs of a path text.
pub open spec fn pair_count(d: Seq<char>) -> int {
    (number_spans_of(d).len() / 2) as int
}

/// The path text reads as exactly one open subpath.
pub open spec fn open_path(d: Seq<char>) -> bool {
    match parse_path(d) {
        Some(sps) => sps.len() == 1 && !sps[0].closed,
        None => false,
    }
}

/// Where the node of anchor `a` of follower `f` goes: through the winning
/// move of its target, when the target moved.
pub open spec fn new_node(
    objects: Seq<ObjectView>,
    ops: Seq<ObjectOpView>,
    f: ObjectView,
    a: AnchorView,
    rq: spec_fn(Transform3x3, Transform3x3, LocalPoint) -> (i64, i64),
) -> Option<(i64, i64)> {
    match last_move(objects, ops, a.target) {
        Some(t) => Some(rq(f.transform, t, a.at)),
        None => None,
    }
}

/// The node splice over the first `k` anchors of `f`: each anchor whose
/// target moved rewrites its node in the text so far; `None` until one lands.
pub open spec fn splice_upto(
    objects: Seq<ObjectView>,
    ops: Seq<ObjectOpView>,
    f: ObjectView,
    rq: spec_fn(Transform3x3, Transform3x3, LocalPoint) -> (i64, i64),
    k: int,
) -> Option<Seq<char>>
    decreases k,
{
    if k <= 0 {
        None
    } else {
        let prev = splice_upto(objects, ops, f, rq, k - 1);
        let a = f.anchors[k - 1];
        match new_node(objects, ops, f, a, rq) {
            None => prev,
            Some(q) => {
                let cur = match prev {
                    Some(d) => d,
                    None => f.geometry.path_string,
                };
                match set_path(cur, a.node_index as int, q.0, q.1) {
                    Some(d) => Some(d),
                    None => prev,
                }
            },
        }
    }
}

/// The new start and end of an endpoint-anchored follower over its first
/// `k` anchors: the last moved anchor on each endpoint decides it.
pub open spec fn ends_upto(
    objects: Seq<ObjectView>,
    ops: Seq<ObjectOpView>,
    f: ObjectView,
    rq: spec_fn(Transform3x3, Transform3x3, LocalPoint) -> (i64, i64),
    k: int,
) -> (Option<(i64, i64)>, Option<(i64, i64)>)
    decreases k,
{
    if k <= 0 {
        (None, None)
    } else {
        let (s, e) = ends_upto(objects, ops, f, rq, k - 1);
        let a = f.anchors[k - 1];
        match new_node(objects, ops, f, a, rq) {
            None => (s, e),
            Some(q) => if a.node_index == 0 {
                (Some(q), e)
            } else {
                (s, Some(q))
            },
        }
    }
}

/// Every anchor of `f` binds an endpoint of its path (node `0` or `last`).
pub open spec fn endpoint_anchored(f: ObjectView, last: int) -> bool {
    forall|k: int| 0 <= k < f.anchors.len() ==> (#[trigger] f.anchors[k]).node_index == 0 || f.anchors[k].node_index == last
}

/// The follower's new path text: an open path of two or more nodes whose
/// anchors all bind endpoints deforms as one chord (through `df`) to its new
/// endpoints; any other path has each moved anchor's node spliced in.
pub open spec fn follower_path(
    objects: Seq<ObjectView>,
    ops: Seq<ObjectOpView>,
    f: ObjectView,
    rq: spec_fn(Transform3x3, Transform3x3, LocalPoint) -> (i64, i64),
    df: spec_fn(Seq<char>, Option<(i64, i64)>, Option<(i64, i64)>) -> Option<Seq<char>>,
) -> Option<Seq<char>> {
    let base = f.geometry.path_string;
    let n = pair_count(base);
    if n >= 2 && endpoint_anchored(f, n - 1) && open_path(base) {
        let se = ends_upto(objects, ops, f, rq, f.anchors.len() as int);
        if se.0 is None && se.1 is None {
            None
        } else {
            df(base, se.0, se.1)
        }
    } else {
        splice_upto(objects, ops, f, rq, f.anchors.len() as int)
    }
}

/// The one edit that makes `f` follow the batch `ops`: none when `f` moves
/// itself, is rewritten by the batch, has no anchors, or its path would not
/// change.
pub open spec fn follower_edit(
    objects: Seq<ObjectView>,
    ops: Seq<ObjectOpView>,
    f: ObjectView,
    rq: spec_fn(Transform3x3, Transform3x3, LocalPoint) -> (i64, i64),
    df: spec_fn(Seq<char>, Option<(i64, i64)>, Option<(i64, i64)>) -> Option<Seq<char>>,
) -> Seq<ObjectOpView> {
    if last_move(objects, ops, f.id) is Some || edited_in(ops, f.id) || f.anchors.len() == 0 {
        seq![]
    } else {
        match follower_path(objects, ops, f, rq, df) {
            Some(d) => if d != f.geometry.path_string {
                seq![
                    ObjectOpView::EditGeometry {
                        id: f.id,
                        geometry: GeometryView { path_string: d, fill_rule: f.geometry.fill_rule, subpaths: seq![] },
                    },
                ]
            } else {
                seq![]
            },
            None => seq![],
        }
    }
}

/// The follow edits of the first `n` objects, in object order.
pub open spec fn followers_upto(
    objects: Seq<ObjectView>,
    ops: Seq<ObjectOpView>,
    rq: spec_fn(Transform3x3, Transform3x3, LocalPoint) -> (i64, i64),
    df: spec_fn(Seq<char>, Option<(i64, i64)>, Option<(i64, i64)>) -> Option<Seq<char>>,
    n: int,
) -> Seq<ObjectOpView>
    decreases n,
{
    if n <= 0 {
        seq![]
    } else {
        followers_upto(objects, ops, rq, df, n - 1) + follower_edit(objects, ops, objects[n - 1], rq, df)
    }
}

/// The follow edits of a committed batch `ops`: one per object, in object
/// order.
pub open spec fn follow_ops(
    objects: Seq<ObjectView>,
    ops: Seq<ObjectOpView>,
    rq: spec_fn(Transform3x3, Transform3x3, LocalPoint) -> (i64, i64),
    df: spec_fn(Seq<char>, Option<(i64, i64)>, Option<(i64, i64)>) -> Option<Seq<char>>,
) -> Seq<ObjectOpView> {
    followers_upto(objects, ops, rq, df, objects.len() as int)
}

proof fn lemma_op_views_push(ops: Seq<ObjectOp>, x: ObjectOp)
    ensures
        op_views(ops.push(x)) == op_views(ops).push(op_view(x)),
{
    assert(ops.push(x).drop_last() =~= ops);
}

proof fn lemma_op_views_index(s: Seq<ObjectOp>)
    ensures
        op_views(s).len() == s.len(),
        forall|i: int| 0 <= i < s.len() ==> #[trigger] op_views(s)[i] == op_view(s[i]),
    decreases s.len(),
{
    if s.len() > 0 {
        lemma_op_views_index(s.drop_last());
        assert forall|i: int| 0 <= i < s.len() implies #[trigger] op_views(s)[i] == op_view(s[i]) by {
            if i < s.len() - 1 {
                assert(op_views(s)[i] == op_views(s.drop_last())[i]);
                assert(s.drop_last()[i] == s[i]);
            }
        }
    }
}

// ---------------------------------------------------------------------------
// The moved set
// ---------------------------------------------------------------------------

pub open spec fn moved_view(v: Seq<(String, Transform3x3)>) -> Seq<(Seq<char>, Transform3x3)> {
    v.map_values(|p: (String, Transform3x3)| (p.0@, p.1))
}

pub open spec fn keys_unique(m: Seq<(Seq<char>, Transform3x3)>) -> bool {
    forall|a: int, b: int| 0 <= a < b < m.len() ==> m[a].0 != m[b].0
}

/// The transform `m` holds for `x`.
pub open spec fn lookup(m: Seq<(Seq<char>, Transform3x3)>, x: Seq<char>) -> Option<Transform3x3> {
    if exists|i: int| 0 <= i < m.len() && m[i].0 == x {
        Some(m[choose|i: int| 0 <= i < m.len() && m[i].0 == x].1)
    } else {
        None
    }
}

proof fn lemma_lookup_at(m: Seq<(Seq<char>, Transform3x3)>, i: int)
    requires
        keys_unique(m),
        0 <= i < m.len(),
    ensures
        lookup(m, m[i].0) == Some(m[i].1),
{
    let x = m[i].0;
    let c = choose|c: int| 0 <= c < m.len() && m[c].0 == x;
    if c < i {
        assert(m[c].0 != m[i].0);
    } else if c > i {
        assert(m[i].0 != m[c].0);
    }
}

/// The index of the entry of `moved` with key `id`.
fn find_moved(moved: &Vec<(String, Transform3x3)>, id: &str) -> (r: Option<usize>)
    ensures
        match r {
            Some(i) => i < moved@.len() && moved_view(moved@)[i as int].0 == id@,
            None => forall|i: int| 0 <= i < moved@.len() ==> moved_view(moved@)[i].0 != id@,
        },
{
    let mut i: usize = 0;
    while i < moved.len()
        invariant
            i <= moved@.len(),
            forall|j: int| 0 <= j < i ==> moved_view(moved@)[j].0 != id@,
        decreases moved@.len() - i,
    {
        if str_eq(moved[i].0.as_str(), id) {
            return Some(i);
        }
        i = i + 1;
    }
    None
}

/// The winning move of each scene object a `set-transform` of `ops` names.
fn moved_set(scene: &ObjectScene, ops: &[ObjectOp]) -> (r: Vec<(String, Transform3x3)>)
    ensures
        keys_unique(moved_view(r@)),
        forall|x: Seq<char>| #[trigger] lookup(moved_view(r@), x) == last_move(scene@.objects, op_views(ops@), x),
{
    let ghost objs = scene@.objects;
    let mut moved: Vec<(String, Transform3x3)> = Vec::new();
    let mut k: usize = 0;
    while k < ops.len()
        invariant
            k <= ops@.len(),
            objs == scene@.objects,
            keys_unique(moved_view(moved@)),
            forall|x: Seq<char>| #[trigger] lookup(moved_view(moved@), x) == last_move(objs, op_views(ops@.subrange(0, k as int)), x),
        decreases ops@.len() - k,
    {
        let ghost pre = op_views(ops@.subrange(0, k as int));
        let ghost post = op_views(ops@.subrange(0, k + 1));
        let ghost m0 = moved_view(moved@);
        proof {
            assert(ops@.subrange(0, k + 1) =~= ops@.subrange(0, k as int).push(ops@[k as int]));
            lemma_op_views_push(ops@.subrange(0, k as int), ops@[k as int]);
            assert(post.drop_last() =~= pre);
            assert(post.last() == op_view(ops@[k as int]));
            assert(post.len() > 0);
        }
        match &ops[k] {
            ObjectOp::SetTransform { id, transform } => {
                if scene.get(id.as_str()).is_some() {
                    match find_moved(&moved, id.as_str()) {
                        Some(i) => {
                            moved.set(i, (id.clone(), *transform));
                            proof {
                                let m1 = moved_view(moved@);
                                assert(m1 =~= m0.update(i as int, (id@, *transform)));
                                assert(keys_unique(m1));
                                lemma_lookup_at(m1, i as int);
                                assert forall|x: Seq<char>| #[trigger] lookup(m1, x) == last_move(objs, post, x) by {
                                    if x != id@ {
                                        if exists|j: int| 0 <= j < m0.len() && m0[j].0 == x {
                                            let j = choose|j: int| 0 <= j < m0.len() && m0[j].0 == x;
                                            lemma_lookup_at(m0, j);
                                            lemma_lookup_at(m1, j);
                                        } else {
                                            assert(!exists|j: int| 0 <= j < m1.len() && m1[j].0 == x);
                                        }
                                        assert(lookup(m0, x) == last_move(objs, pre, x));
                                    }
                                }
                            }
                        },
                        None => {
                            moved.push((id.clone(), *transform));
                            proof {
                                let m1 = moved_view(moved@);
                                assert(m1 =~= m0.push((id@, *transform)));
                                assert(keys_unique(m1));
                                lemma_lookup_at(m1, m0.len() as int);
                                assert forall|x: Seq<char>| #[trigger] lookup(m1, x) == last_move(objs, post, x) by {
                                    if x != id@ {
                                        if exists|j: int| 0 <= j < m0.len() && m0[j].0 == x {
                                            let j = choose|j: int| 0 <= j < m0.len() && m0[j].0 == x;
                                            lemma_lookup_at(m0, j);
                                            lemma_lookup_at(m1, j);
                                        } else {
                                            assert(!exists|j: int| 0 <= j < m1.len() && m1[j].0 == x);
                                        }
                                        assert(lookup(m0, x) == last_move(objs, pre, x));
                                    }
                                }
                            }
                        },
                    }
                } else {
                    proof {
                        assert forall|x: Seq<char>| #[trigger] lookup(m0, x) == last_move(objs, post, x) by {
                            assert(lookup(m0, x) == last_move(objs, pre, x));
                        }
                    }
                }
            },
            _ => {
                proof {
                    assert forall|x: Seq<char>| #[trigger] lookup(m0, x) == last_move(objs, post, x) by {
                        assert(lookup(m0, x) == last_move(objs, pre, x));
                    }
                }
            },
        }
        k = k + 1;
    }
    proof {
        assert(ops@.subrange(0, ops@.len() as int) =~= ops@);
    }
    moved
}

/// Whether some `edit-geometry` of `ops` rewrites `id`.
fn edited_in_ops(ops: &[ObjectOp], id: &str) -> (r: bool)
    ensures
        r == edited_in(op_views(ops@), id@),
{
    proof {
        lemma_op_views_index(ops@);
    }
    let mut k: usize = 0;
    while k < ops.len()
        invariant
            k <= ops@.len(),
            op_views(ops@).len() == ops@.len(),
            forall|i: int| 0 <= i < ops@.len() ==> #[trigger] op_views(ops@)[i] == op_view(ops@[i]),
            forall|j: int|
                0 <= j < k ==> !((#[trigger] op_views(ops@)[j]) is EditGeometry && op_views(ops@)[j]->EditGeometry_id == id@),
        decreases ops@.len() - k,
    {
        match &ops[k] {
            ObjectOp::EditGeometry { id: e, .. } => {
                if str_eq(e.as_str(), id) {
                    proof {
                        assert(op_views(ops@)[k as int] is EditGeometry);
                    }
                    return true;
                }
            },
            _ => {},
        }
        k = k + 1;
    }
    false
}

// ---------------------------------------------------------------------------
// One follower
// ---------------------------------------------------------------------------

/// Where the node of `a` goes, when its target moved.
fn new_node_of<R: Fn(&Transform3x3, &Transform3x3, LocalPoint) -> (i64, i64)>(
    moved: &Vec<(String, Transform3x3)>,
    f: &Object,
    a: &Anchor,
    reproject: &R,
    Ghost(objs): Ghost<Seq<ObjectView>>,
    Ghost(opv): Ghost<Seq<ObjectOpView>>,
) -> (r: Option<(i64, i64)>)
    requires
        reprojects(*reproject),
        keys_unique(moved_view(moved@)),
        forall|x: Seq<char>| #[trigger] lookup(moved_view(moved@), x) == last_move(objs, opv, x),
    ensures
        r == new_node(objs, opv, f@, a@, reprojected_by(*reproject)),
{
    match find_moved(moved, a.target.as_str()) {
        Some(i) => {
            proof {
                lemma_lookup_at(moved_view(moved@), i as int);
                assert(lookup(moved_view(moved@), a@.target) == last_move(objs, opv, a@.target));
            }
            let q = reproject(&f.transform, &moved[i].1, a.at);
            proof {
                lemma_reprojected_by(*reproject, f.transform, moved@[i as int].1, a.at, q);
            }
            Some(q)
        },
        None => {
            proof {
                assert(lookup(moved_view(moved@), a@.target) == last_move(objs, opv, a@.target));
            }
            None
        },
    }
}

/// Whether the path text is one open subpath.
pub(crate) fn is_open_path(d: &str) -> (r: bool)
    ensures
        r == open_path(d@),
{
    match parse_path_text(d) {
        Some(sps) => sps.len() == 1 && !sps[0].closed,
        None => false,
    }
}

/// Whether every anchor binds node `0` or node `last`.
pub(crate) fn all_endpoints(anchors: &Vec<Anchor>, last: usize, Ghost(f): Ghost<ObjectView>) -> (r: bool)
    requires
        f.anchors == anchor_views(anchors@),
    ensures
        r == endpoint_anchored(f, last as int),
{
    let mut k: usize = 0;
    while k < anchors.len()
        invariant
            k <= anchors@.len(),
            f.anchors == anchor_views(anchors@),
            forall|j: int| 0 <= j < k ==> (#[trigger] f.anchors[j]).node_index == 0 || f.anchors[j].node_index == last as int,
        decreases anchors@.len() - k,
    {
        let n = anchors[k].node_index;
        proof {
            assert(f.anchors[k as int] == anchors@[k as int]@);
        }
        if n != 0 && n as usize != last {
            return false;
        }
        k = k + 1;
    }
    true
}

/// The one edit that makes `f` follow the batch.
fn follower_edit_op<
    R: Fn(&Transform3x3, &Transform3x3, LocalPoint) -> (i64, i64),
    D: Fn(&str, Option<(i64, i64)>, Option<(i64, i64)>) -> Option<String>,
>(
    f: &Object,
    moved: &Vec<(String, Transform3x3)>,
    ops: &[ObjectOp],
    reproject: &R,
    deform: &D,
    Ghost(objs): Ghost<Seq<ObjectView>>,
) -> (r: Option<ObjectOp>)
    requires
        reprojects(*reproject),
        deforms(*deform),
        keys_unique(moved_view(moved@)),
        forall|x: Seq<char>| #[trigger] lookup(moved_view(moved@), x) == last_move(objs, op_views(ops@), x),
    ensures
        follower_edit(objs, op_views(ops@), f@, reprojected_by(*reproject), deformed_by(*deform)) == match r {
            Some(op) => seq![op_view(op)],
            None => Seq::<ObjectOpView>::empty(),
        },
{
    let ghost opv = op_views(ops@);
    let ghost rq = reprojected_by(*reproject);
    let ghost fv = f@;
    let self_moved = find_moved(moved, f.id.as_str()).is_some();
    proof {
        if exists|i: int| 0 <= i < moved_view(moved@).len() && moved_view(moved@)[i].0 == f.id@ {
            let i = choose|i: int| 0 <= i < moved_view(moved@).len() && moved_view(moved@)[i].0 == f.id@;
            lemma_lookup_at(moved_view(moved@), i);
        }
        assert(lookup(moved_view(moved@), fv.id) == last_move(objs, opv, fv.id));
    }
    if self_moved || edited_in_ops(ops, f.id.as_str()) || f.anchors.len() == 0 {
        return None;
    }
    let base = f.geometry.path_string.as_str();
    let n = number_spans(base).len() / 2;
    let endpoint = n >= 2 && all_endpoints(&f.anchors, n - 1, Ghost(fv)) && is_open_path(base);
    let path: Option<String> = if endpoint {
        let mut s: Option<(i64, i64)> = None;
        let mut e: Option<(i64, i64)> = None;
        let mut k: usize = 0;
        while k < f.anchors.len()
            invariant
                k <= f.anchors@.len(),
                fv == f@,
                rq == reprojected_by(*reproject),
                opv == op_views(ops@),
                reprojects(*reproject),
                keys_unique(moved_view(moved@)),
                forall|x: Seq<char>| #[trigger] lookup(moved_view(moved@), x) == last_move(objs, opv, x),
                (s, e) == ends_upto(objs, opv, fv, rq, k as int),
            decreases f.anchors@.len() - k,
        {
            let a = &f.anchors[k];
            let ghost prev = (s, e);
            proof {
                assert(fv.anchors[k as int] == a@);
                assert(prev == ends_upto(objs, opv, fv, rq, k as int));
            }
            let nn = new_node_of(moved, f, a, reproject, Ghost(objs), Ghost(opv));
            proof {
                assert(nn == new_node(objs, opv, fv, fv.anchors[k as int], rq));
                assert(ends_upto(objs, opv, fv, rq, k + 1) == match nn {
                    None => prev,
                    Some(q) => if a@.node_index == 0 {
                        (Some(q), prev.1)
                    } else {
                        (prev.0, Some(q))
                    },
                });
            }
            match nn {
                Some(q) => {
                    if a.node_index == 0 {
                        s = Some(q);
                    } else {
                        e = Some(q);
                    }
                },
                None => {},
            }
            k = k + 1;
        }
        if s.is_none() && e.is_none() {
            None
        } else {
            let r = deform(base, s, e);
            proof {
                lemma_deformed_by(*deform, base, s, e, r);
            }
            r
        }
    } else {
        let mut rewritten: Option<String> = None;
        let mut k: usize = 0;
        while k < f.anchors.len()
            invariant
                k <= f.anchors@.len(),
                fv == f@,
                base@ == fv.geometry.path_string,
                rq == reprojected_by(*reproject),
                opv == op_views(ops@),
                reprojects(*reproject),
                keys_unique(moved_view(moved@)),
                forall|x: Seq<char>| #[trigger] lookup(moved_view(moved@), x) == last_move(objs, opv, x),
                opt_str(rewritten) == splice_upto(objs, opv, fv, rq, k as int),
            decreases f.anchors@.len() - k,
        {
            let a = &f.anchors[k];
            let ghost prev = opt_str(rewritten);
            proof {
                assert(fv.anchors[k as int] == a@);
            }
            let nn = new_node_of(moved, f, a, reproject, Ghost(objs), Ghost(opv));
            proof {
                assert(nn == new_node(objs, opv, fv, fv.anchors[k as int], rq));
            }
            match nn {
                Some(q) => {
                    let next = match &rewritten {
                        Some(d) => set_path_node(d.as_str(), a.node_index, q.0, q.1),
                        None => set_path_node(base, a.node_index, q.0, q.1),
                    };
                    match next {
                        Some(d) => {
                            rewritten = Some(d);
                        },
                        None => {},
                    }
                },
                None => {},
            }
            k = k + 1;
        }
        rewritten
    };
    proof {
        assert(opt_str(path) == follower_path(objs, opv, fv, rq, deformed_by(*deform)));
    }
    match path {
        Some(d) => {
            if str_eq(d.as_str(), base) {
                None
            } else {
                let g = Geometry { path_string: d, fill_rule: f.geometry.fill_rule, subpaths: Vec::new() };
                proof {
                    assert(g@.subpaths =~= Seq::<SubPathView>::empty());
                }
                Some(ObjectOp::EditGeometry { id: f.id.clone(), geometry: g })
            }
        },
        None => None,
    }
}

/// The `edit-geometry` ops a committed batch makes so anchored objects follow
/// their moved targets: one per object, in object order. The batch's moves
/// are read last-write-wins, and only moves of scene objects count. An
/// object that the batch moves itself, or whose geometry the batch rewrites,
/// or that has no anchors, gets none. Otherwise every anchor whose target
/// moved has its node go where `reproject` puts its anchor point under the
/// target's winning transform (the `f64` affine reprojection, quantized): an
/// open path of two or more nodes whose anchors all bind endpoints deforms as
/// one chord to its new endpoints through `deform`; any other path has each
/// such node spliced into its text. An edit is made only when the text
/// changes.
pub fn anchor_follow_ops<
    R: Fn(&Transform3x3, &Transform3x3, LocalPoint) -> (i64, i64),
    D: Fn(&str, Option<(i64, i64)>, Option<(i64, i64)>) -> Option<String>,
>(scene: &ObjectScene, transform_ops: &[ObjectOp], reproject: &R, deform: &D) -> (r: Vec<ObjectOp>)
    requires
        reprojects(*reproject),
        deforms(*deform),
    ensures
        op_views(r@) == follow_ops(
            scene@.objects,
            op_views(transform_ops@),
            reprojected_by(*reproject),
            deformed_by(*deform),
        ),
{
    let ghost objs = scene@.objects;
    let ghost opv = op_views(transform_ops@);
    let ghost rq = reprojected_by(*reproject);
    let ghost df = deformed_by(*deform);
    let moved = moved_set(scene, transform_ops);
    let mut out: Vec<ObjectOp> = Vec::new();
    let mut j: usize = 0;
    while j < scene.objects.len()
        invariant
            j <= scene.objects@.len(),
            objs == scene@.objects,
            opv == op_views(transform_ops@),
            rq == reprojected_by(*reproject),
            df == deformed_by(*deform),
            reprojects(*reproject),
            deforms(*deform),
            keys_unique(moved_view(moved@)),
            forall|x: Seq<char>| #[trigger] lookup(moved_view(moved@), x) == last_move(objs, opv, x),
            op_views(out@) == followers_upto(objs, opv, rq, df, j as int),
        decreases scene.objects@.len() - j,
    {
        proof {
            assert(objs[j as int] == scene.objects@[j as int]@);
        }
        let ghost before = op_views(out@);
        match follower_edit_op(&scene.objects[j], &moved, transform_ops, reproject, deform, Ghost(objs)) {
            Some(op) => {
                let ghost old_out = out@;
                out.push(op);
                proof {
                    lemma_op_views_push(old_out, op);
                }
            },
            None => {
                proof {
                    assert(before + Seq::<ObjectOpView>::empty() =~= before);
                }
            },
        }
        proof {
            assert(op_views(out@) =~= followers_upto(objs, opv, rq, df, j + 1));
        }
        j = j + 1;
    }
    out
}

// ---------------------------------------------------------------------------
// What the follow edits are
// ---------------------------------------------------------------------------

/// The positions among the first `n` objects that get a follow edit.
pub open spec fn edit_positions(
    objects: Seq<ObjectView>,
    ops: Seq<ObjectOpView>,
    rq: spec_fn(Transform3x3, Transform3x3, LocalPoint) -> (i64, i64),
    df: spec_fn(Seq<char>, Option<(i64, i64)>, Option<(i64, i64)>) -> Option<Seq<char>>,
    n: int,
) -> Seq<int>
    decreases n,
{
    if n <= 0 {
        seq![]
    } else {
        edit_positions(objects, ops, rq, df, n - 1) + if follower_edit(objects, ops, objects[n - 1], rq, df).len() > 0 {
            seq![n - 1]
        } else {
            seq![]
        }
    }
}

/// Some anchor of `f` is bound to a target the batch moves.
pub open spec fn anchored_to_moved(objects: Seq<ObjectView>, ops: Seq<ObjectOpView>, f: ObjectView) -> bool {
    exists|k: int| 0 <= k < f.anchors.len() && last_move(objects, ops, (#[trigger] f.anchors[k]).target) is Some
}

proof fn lemma_splice_needs_move(
    objects: Seq<ObjectView>,
    ops: Seq<ObjectOpView>,
    f: ObjectView,
    rq: spec_fn(Transform3x3, Transform3x3, LocalPoint) -> (i64, i64),
    k: int,
)
    requires
        k <= f.anchors.len(),
    ensures
        splice_upto(objects, ops, f, rq, k) is Some ==> anchored_to_moved(objects, ops, f),
        ends_upto(objects, ops, f, rq, k).0 is Some || ends_upto(objects, ops, f, rq, k).1 is Some
            ==> anchored_to_moved(objects, ops, f),
    decreases k,
{
    if k > 0 {
        lemma_splice_needs_move(objects, ops, f, rq, k - 1);
        if new_node(objects, ops, f, f.anchors[k - 1], rq) is Some {
            assert(last_move(objects, ops, f.anchors[k - 1].target) is Some);
        }
    }
}

proof fn lemma_edit_is_follower(
    objects: Seq<ObjectView>,
    ops: Seq<ObjectOpView>,
    f: ObjectView,
    rq: spec_fn(Transform3x3, Transform3x3, LocalPoint) -> (i64, i64),
    df: spec_fn(Seq<char>, Option<(i64, i64)>, Option<(i64, i64)>) -> Option<Seq<char>>,
)
    ensures
        follower_edit(objects, ops, f, rq, df).len() <= 1,
        follower_edit(objects, ops, f, rq, df).len() == 1 ==> {
            let op = follower_edit(objects, ops, f, rq, df)[0];
            &&& op is EditGeometry
            &&& op->EditGeometry_id == f.id
            &&& last_move(objects, ops, f.id) is None
            &&& !edited_in(ops, f.id)
            &&& f.anchors.len() > 0
            &&& anchored_to_moved(objects, ops, f)
            &&& op->EditGeometry_geometry.path_string != f.geometry.path_string
        },
{
    lemma_splice_needs_move(objects, ops, f, rq, f.anchors.len() as int);
}

proof fn lemma_edit_positions(
    objects: Seq<ObjectView>,
    ops: Seq<ObjectOpView>,
    rq: spec_fn(Transform3x3, Transform3x3, LocalPoint) -> (i64, i64),
    df: spec_fn(Seq<char>, Option<(i64, i64)>, Option<(i64, i64)>) -> Option<Seq<char>>,
    n: int,
)
    requires
        0 <= n <= objects.len(),
    ensures
        ({
            let r = followers_upto(objects, ops, rq, df, n);
            let pos = edit_positions(objects, ops, rq, df, n);
            &&& r.len() == pos.len()
            &&& forall|i: int| 0 <= i < pos.len() ==> 0 <= #[trigger] pos[i] < n
            &&& forall|i: int, i2: int| 0 <= i < i2 < pos.len() ==> #[trigger] pos[i] < #[trigger] pos[i2]
            &&& forall|i: int|
                0 <= i < r.len() ==> #[trigger] r[i] == follower_edit(objects, ops, objects[pos[i]], rq, df)[0]
                    && follower_edit(objects, ops, objects[pos[i]], rq, df).len() == 1
        }),
    decreases n,
{
    if n > 0 {
        lemma_edit_positions(objects, ops, rq, df, n - 1);
        lemma_edit_is_follower(objects, ops, objects[n - 1], rq, df);
        let r0 = followers_upto(objects, ops, rq, df, n - 1);
        let p0 = edit_positions(objects, ops, rq, df, n - 1);
        let e = follower_edit(objects, ops, objects[n - 1], rq, df);
        let r = followers_upto(objects, ops, rq, df, n);
        let pos = edit_positions(objects, ops, rq, df, n);
        assert(r == r0 + e);
        if e.len() > 0 {
            assert(pos == p0 + seq![n - 1]);
            assert forall|i: int| 0 <= i < r.len() implies #[trigger] r[i] == follower_edit(objects, ops, objects[pos[i]], rq, df)[0]
                && follower_edit(objects, ops, objects[pos[i]], rq, df).len() == 1 by {
                if i < r0.len() {
                    assert(r[i] == r0[i]);
                    assert(pos[i] == p0[i]);
                } else {
                    assert(pos[i] == n - 1);
                }
            }
            assert forall|i: int, i2: int| 0 <= i < i2 < pos.len() implies #[trigger] pos[i] < #[trigger] pos[i2] by {
                if i2 < p0.len() {
                    assert(pos[i] == p0[i] && pos[i2] == p0[i2]);
                } else {
                    assert(pos[i] == p0[i]);
                }
            }
            assert forall|i: int| 0 <= i < pos.len() implies 0 <= #[trigger] pos[i] < n by {
                if i < p0.len() {
                    assert(pos[i] == p0[i]);
                }
            }
        } else {
            assert(pos =~= p0);
            assert(r =~= r0);
        }
    }
}

/// What a batch's follow edits are: each edits the geometry of an object of
/// the scene, the edits come in scene order (at strictly increasing
/// positions, so with distinct ids in a scene whose ids are distinct), and the
/// edited object is not moved by the batch, is not rewritten by the batch, has
/// anchors, has one bound to a moved object, and gets a path text other than
/// its own. In particular, a batch that moves no scene object gets no edits.
pub proof fn lemma_follow_edits(
    objects: Seq<ObjectView>,
    ops: Seq<ObjectOpView>,
    rq: spec_fn(Transform3x3, Transform3x3, LocalPoint) -> (i64, i64),
    df: spec_fn(Seq<char>, Option<(i64, i64)>, Option<(i64, i64)>) -> Option<Seq<char>>,
)
    ensures
        ({
            let r = follow_ops(objects, ops, rq, df);
            let pos = edit_positions(objects, ops, rq, df, objects.len() as int);
            &&& r.len() == pos.len()
            &&& forall|i: int, i2: int| 0 <= i < i2 < pos.len() ==> #[trigger] pos[i] < #[trigger] pos[i2]
            &&& forall|i: int|
                0 <= i < r.len() ==> {
                    let f = objects[pos[i]];
                    &&& 0 <= pos[i] < objects.len()
                    &&& (#[trigger] r[i]) is EditGeometry
                    &&& r[i]->EditGeometry_id == f.id
                    &&& last_move(objects, ops, f.id) is None
                    &&& !edited_in(ops, f.id)
                    &&& f.anchors.len() > 0
                    &&& anchored_to_moved(objects, ops, f)
                    &&& r[i]->EditGeometry_geometry.path_string != f.geometry.path_string
                }
            &&& (forall|a: int, b: int| 0 <= a < b < objects.len() ==> objects[a].id != objects[b].id) ==> forall|
                i: int,
                i2: int,
            | 0 <= i < i2 < r.len() ==> (#[trigger] r[i])->EditGeometry_id != (#[trigger] r[i2])->EditGeometry_id
        }),
{
    let n = objects.len() as int;
    lemma_edit_positions(objects, ops, rq, df, n);
    let r = follow_ops(objects, ops, rq, df);
    let pos = edit_positions(objects, ops, rq, df, n);
    assert forall|i: int| 0 <= i < r.len() implies {
        let f = objects[pos[i]];
        &&& 0 <= pos[i] < objects.len()
        &&& (#[trigger] r[i]) is EditGeometry
        &&& r[i]->EditGeometry_id == f.id
        &&& last_move(objects, ops, f.id) is None
        &&& !edited_in(ops, f.id)
        &&& f.anchors.len() > 0
        &&& anchored_to_moved(objects, ops, f)
        &&& r[i]->EditGeometry_geometry.path_string != f.geometry.path_string
    } by {
        assert(0 <= pos[i] < n);
        lemma_edit_is_follower(objects, ops, objects[pos[i]], rq, df);
    }
    if forall|a: int, b: int| 0 <= a < b < objects.len() ==> objects[a].id != objects[b].id {
        assert forall|i: int, i2: int| 0 <= i < i2 < r.len() implies (#[trigger] r[i])->EditGeometry_id != (
        #[trigger] r[i2])->EditGeometry_id by {
            assert(pos[i] < pos[i2]);
            assert(0 <= pos[i] < n && 0 <= pos[i2] < n);
            lemma_edit_is_follower(objects, ops, objects[pos[i]], rq, df);
            lemma_edit_is_follower(objects, ops, objects[pos[i2]], rq, df);
        }
    }
}

} // verus!
