//! Path text: the `M x y` / `L x y` / `C x1 y1 x2 y2 x y` / `Z` language that
//! geometry is stored in, read into subpaths and written back out.
//!
//! Tokens are separated by single spaces; coordinates are decimal `i32`s.
//! `M` starts a subpath, `L` adds a sharp node, `C` adds a node whose incoming
//! handle is `(x2, y2)` and sets the previous node's outgoing handle to
//! `(x1, y1)`, and `Z` closes the current subpath.

use vstd::prelude::*;

use crate::object::model::{
    subpath_views, FillRule, Geometry, LocalPoint, PathNode, SubPath, SubPathView,
};
use crate::text::{decimal, push_decimal, push_str};

verus! {

/// The space-separated tokens of `s` (consecutive spaces give empty tokens).
pub open spec fn split_spaces(s: Seq<char>) -> Seq<Seq<char>>
    decreases s.len(),
{
    if s.len() == 0 {
        seq![seq![]]
    } else {
        let t = split_spaces(s.drop_last());
        if s.last() == ' ' {
            t.push(seq![])
        } else {
            t.drop_last().push(t.last().push(s.last()))
        }
    }
}

proof fn lemma_split_nonempty(s: Seq<char>)
    ensures
        split_spaces(s).len() >= 1,
    decreases s.len(),
{
    if s.len() > 0 {
        lemma_split_nonempty(s.drop_last());
    }
}

pub open spec fn is_digit(c: char) -> bool {
    '0' <= c && c <= '9'
}

/// The value of a string of decimal digits.
pub open spec fn digits_value(d: Seq<char>) -> int
    decreases d.len(),
{
    if d.len() == 0 {
        0
    } else {
        digits_value(d.drop_last()) * 10 + (d.last() as int - '0' as int)
    }
}

pub open spec fn all_digits(d: Seq<char>) -> bool {
    forall|i: int| 0 <= i < d.len() ==> is_digit(#[trigger] d[i])
}

/// The integer a token spells: an optional `-` then one or more digits.
pub open spec fn token_int(t: Seq<char>) -> Option<int> {
    if t.len() > 0 && t[0] == '-' {
        let d = t.drop_first();
        if d.len() > 0 && all_digits(d) {
            Some(-digits_value(d))
        } else {
            None
        }
    } else if t.len() > 0 && all_digits(t) {
        Some(digits_value(t))
    } else {
        None
    }
}

/// A coordinate token: an integer in the `i32` range.
pub open spec fn coord(t: Seq<char>) -> Option<i32> {
    match token_int(t) {
        Some(v) => if i32::MIN <= v <= i32::MAX {
            Some(v as i32)
        } else {
            None
        },
        None => None,
    }
}

pub open spec fn sharp(x: i32, y: i32) -> PathNode {
    PathNode { x, y, in_handle: None, out_handle: None, width: None }
}

/// Appends `n` to the last subpath.
pub open spec fn add_node(acc: Seq<SubPathView>, n: PathNode) -> Seq<SubPathView> {
    let last = acc.last();
    acc.update(acc.len() - 1, SubPathView { closed: last.closed, nodes: last.nodes.push(n) })
}

/// Appends a curve to the last subpath: its last node gets outgoing handle
/// `h1`, and a node at `(x, y)` with incoming handle `h2` follows.
pub open spec fn add_curve(acc: Seq<SubPathView>, h1: LocalPoint, h2: LocalPoint, x: i32, y: i32) -> Seq<
    SubPathView,
> {
    let last = acc.last();
    let prev = last.nodes.last();
    let nodes = last.nodes.update(
        last.nodes.len() - 1,
        PathNode { out_handle: Some(h1), ..prev },
    ).push(PathNode { x, y, in_handle: Some(h2), out_handle: None, width: None });
    acc.update(acc.len() - 1, SubPathView { closed: last.closed, nodes })
}

/// Marks the last subpath closed.
pub open spec fn close_last(acc: Seq<SubPathView>) -> Seq<SubPathView> {
    let last = acc.last();
    acc.update(acc.len() - 1, SubPathView { closed: true, nodes: last.nodes })
}

/// Reads `ts[i..]` given the subpaths read so far; `open` when the last one
/// still takes segments.
pub open spec fn parse_from(ts: Seq<Seq<char>>, i: int, acc: Seq<SubPathView>, open: bool) -> Option<
    Seq<SubPathView>,
>
    decreases ts.len() - i,
{
    if i < 0 || i >= ts.len() {
        Some(acc)
    } else if ts[i] == seq!['M'] {
        if i + 2 < ts.len() && coord(ts[i + 1]) is Some && coord(ts[i + 2]) is Some {
            parse_from(
                ts,
                i + 3,
                acc.push(
                    SubPathView {
                        closed: false,
                        nodes: seq![sharp(coord(ts[i + 1])->0, coord(ts[i + 2])->0)],
                    },
                ),
                true,
            )
        } else {
            None
        }
    } else if ts[i] == seq!['L'] {
        if open && i + 2 < ts.len() && coord(ts[i + 1]) is Some && coord(ts[i + 2]) is Some {
            parse_from(ts, i + 3, add_node(acc, sharp(coord(ts[i + 1])->0, coord(ts[i + 2])->0)), true)
        } else {
            None
        }
    } else if ts[i] == seq!['C'] {
        if open && i + 6 < ts.len() && coord(ts[i + 1]) is Some && coord(ts[i + 2]) is Some && coord(
            ts[i + 3],
        ) is Some && coord(ts[i + 4]) is Some && coord(ts[i + 5]) is Some && coord(ts[i + 6]) is Some {
            parse_from(
                ts,
                i + 7,
                add_curve(
                    acc,
                    LocalPoint { x: coord(ts[i + 1])->0, y: coord(ts[i + 2])->0 },
                    LocalPoint { x: coord(ts[i + 3])->0, y: coord(ts[i + 4])->0 },
                    coord(ts[i + 5])->0,
                    coord(ts[i + 6])->0,
                ),
                true,
            )
        } else {
            None
        }
    } else if ts[i] == seq!['Z'] {
        if open {
            parse_from(ts, i + 1, close_last(acc), false)
        } else {
            None
        }
    } else {
        None
    }
}

/// The subpaths a path text reads as; the empty text reads as none.
pub open spec fn parse_path(s: Seq<char>) -> Option<Seq<SubPathView>> {
    if s.len() == 0 {
        Some(seq![])
    } else {
        parse_from(split_spaces(s), 0, seq![], false)
    }
}

/// The message a malformed path text is refused with.
pub open spec fn bad_path_message() -> Seq<char> {
    "malformed path data"@
}

/// The space-separated tokens of `s`.
fn tokenize(s: &str) -> (r: Vec<Vec<char>>)
    ensures
        r@.map_values(|t: Vec<char>| t@) == split_spaces(s@),
{
    let n = s.unicode_len();
    let mut tokens: Vec<Vec<char>> = Vec::new();
    tokens.push(Vec::new());
    proof {
        assert(tokens@.map_values(|t: Vec<char>| t@) =~= split_spaces(s@.subrange(0, 0)));
    }
    let mut i: usize = 0;
    while i < n
        invariant
            n == s@.len(),
            i <= n,
            tokens@.len() >= 1,
            tokens@.map_values(|t: Vec<char>| t@) == split_spaces(s@.subrange(0, i as int)),
        decreases n - i,
    {
        let c = s.get_char(i);
        let ghost before = tokens@.map_values(|t: Vec<char>| t@);
        proof {
            let p = s@.subrange(0, i + 1);
            assert(p.drop_last() =~= s@.subrange(0, i as int));
            assert(p.last() == c);
        }
        if c == ' ' {
            tokens.push(Vec::new());
            proof {
                assert(tokens@.map_values(|t: Vec<char>| t@) =~= before.push(seq![]));
            }
        } else {
            let last = tokens.len() - 1;
            let mut t = tokens.remove(last);
            t.push(c);
            tokens.push(t);
            proof {
                assert(tokens@.map_values(|t: Vec<char>| t@) =~= before.drop_last().push(
                    before.last().push(c),
                ));
            }
        }
        i = i + 1;
    }
    proof {
        assert(s@.subrange(0, n as int) =~= s@);
    }
    tokens
}

proof fn lemma_digits_nonneg(d: Seq<char>)
    requires
        all_digits(d),
    ensures
        digits_value(d) >= 0,
    decreases d.len(),
{
    if d.len() > 0 {
        assert(is_digit(d[d.len() - 1]));
        assert(all_digits(d.drop_last()) ) by {
            assert forall|i: int| 0 <= i < d.drop_last().len() implies is_digit(#[trigger] d.drop_last()[i]) by {
                assert(d.drop_last()[i] == d[i]);
            }
        }
        lemma_digits_nonneg(d.drop_last());
    }
}

/// A longer digit string never has a smaller value than its prefix.
proof fn lemma_digits_prefix(d: Seq<char>, k: int)
    requires
        all_digits(d),
        0 <= k <= d.len(),
    ensures
        digits_value(d) >= digits_value(d.subrange(0, k)),
    decreases d.len() - k,
{
    if k < d.len() {
        lemma_digits_prefix(d, k + 1);
        let p = d.subrange(0, k + 1);
        assert(p.drop_last() =~= d.subrange(0, k));
        assert(all_digits(d.subrange(0, k))) by {
            assert forall|i: int| 0 <= i < k implies is_digit(#[trigger] d.subrange(0, k)[i]) by {
                assert(d.subrange(0, k)[i] == d[i]);
            }
        }
        lemma_digits_nonneg(d.subrange(0, k));
        assert(is_digit(d[k]));
    } else {
        assert(d.subrange(0, k) =~= d);
    }
}

/// The coordinate a token spells.
fn coord_of(t: &Vec<char>) -> (r: Option<i32>)
    ensures
        r == coord(t@),
{
    let neg = t.len() > 0 && t[0] == '-';
    let start: usize = if neg { 1 } else { 0 };
    if start >= t.len() {
        return None;
    }
    let ghost d = t@.subrange(start as int, t@.len() as int);
    proof {
        if neg {
            assert(t@.drop_first() =~= d);
        } else {
            assert(t@ =~= d);
        }
    }
    let mut acc: i64 = 0;
    let mut k: usize = start;
    while k < t.len()
        invariant
            start <= k <= t@.len(),
            neg == (t@.len() > 0 && t@[0] == '-'),
            start == (if neg { 1usize } else { 0usize }),
            neg ==> t@.drop_first() == d,
            !neg ==> t@ == d,
            d == t@.subrange(start as int, t@.len() as int),
            acc == digits_value(t@.subrange(start as int, k as int)),
            0 <= acc <= 2147483648,
            all_digits(t@.subrange(start as int, k as int)),
        decreases t@.len() - k,
    {
        let c = t[k];
        if !('0' <= c && c <= '9') {
            proof {
                assert(d[k - start] == c);
                assert(!all_digits(d));
            }
            return None;
        }
        let dv: i64 = (c as u32 - 48) as i64;
        proof {
            let p = t@.subrange(start as int, k + 1);
            assert(p.drop_last() =~= t@.subrange(start as int, k as int));
            assert(p.last() == c);
            assert(all_digits(p)) by {
                assert forall|i: int| 0 <= i < p.len() implies is_digit(#[trigger] p[i]) by {
                    if i < p.len() - 1 {
                        assert(p[i] == t@.subrange(start as int, k as int)[i]);
                    }
                }
            }
        }
        acc = acc * 10 + dv;
        if acc > 2147483648 {
            proof {
                if all_digits(d) {
                    lemma_digits_prefix(d, k + 1 - start);
                    assert(d.subrange(0, k + 1 - start) =~= t@.subrange(start as int, k + 1));
                }
            }
            return None;
        }
        k = k + 1;
    }
    proof {
        assert(t@.subrange(start as int, k as int) =~= d);
    }
    if neg {
        let v: i64 = 0 - acc;
        Some(v as i32)
    } else {
        if acc > 2147483647 {
            None
        } else {
            Some(acc as i32)
        }
    }
}

fn is_word(t: &Vec<char>, c: char) -> (r: bool)
    ensures
        r == (t@ == seq![c]),
{
    if t.len() == 1 {
        let r = t[0] == c;
        proof {
            if r {
                assert(t@ =~= seq![c]);
            }
        }
        r
    } else {
        proof {
            assert(t@.len() != seq![c].len());
        }
        false
    }
}

/// The subpaths a path text reads as, or `None` when it is malformed.
pub fn parse_path_text(s: &str) -> (r: Option<Vec<SubPath>>)
    ensures
        match r {
            Some(v) => parse_path(s@) == Some(subpath_views(v@)),
            None => parse_path(s@) is None,
        },
{
    if s.unicode_len() == 0 {
        let v: Vec<SubPath> = Vec::new();
        proof {
            assert(subpath_views(v@) =~= Seq::<SubPathView>::empty());
        }
        return Some(v);
    }
    let ts = tokenize(s);
    let ghost tv = ts@.map_values(|t: Vec<char>| t@);
    let mut acc: Vec<SubPath> = Vec::new();
    let mut open = false;
    let mut i: usize = 0;
    proof {
        assert(subpath_views(acc@) =~= Seq::<SubPathView>::empty());
    }
    while i < ts.len()
        invariant
            tv == ts@.map_values(|t: Vec<char>| t@),
            tv == split_spaces(s@),
            i <= ts@.len(),
            open ==> acc@.len() > 0,
            open ==> acc@[acc@.len() - 1].nodes@.len() > 0,
            parse_path(s@) == parse_from(tv, i as int, subpath_views(acc@), open),
            s@.len() > 0,
        decreases ts@.len() - i,
    {
        let t = &ts[i];
        proof {
            assert(tv[i as int] == t@);
        }
        if is_word(t, 'M') {
            if ts.len() - i > 2 {
                let x = coord_of(&ts[i + 1]);
                let y = coord_of(&ts[i + 2]);
                proof {
                    assert(tv[i + 1] == ts@[i + 1]@);
                    assert(tv[i + 2] == ts@[i + 2]@);
                }
                match (x, y) {
                    (Some(x), Some(y)) => {
                        let mut nodes: Vec<PathNode> = Vec::new();
                        nodes.push(PathNode { x, y, in_handle: None, out_handle: None, width: None });
                        let ghost before = subpath_views(acc@);
                        acc.push(SubPath { closed: false, nodes });
                        proof {
                            assert(nodes@ =~= seq![sharp(x, y)]);
                            assert(subpath_views(acc@) =~= before.push(
                                SubPathView { closed: false, nodes: seq![sharp(x, y)] },
                            ));
                        }
                        open = true;
                        i = i + 3;
                    },
                    _ => {
                        return None;
                    },
                }
            } else {
                return None;
            }
        } else if is_word(t, 'L') {
            if open && ts.len() - i > 2 {
                let x = coord_of(&ts[i + 1]);
                let y = coord_of(&ts[i + 2]);
                proof {
                    assert(tv[i + 1] == ts@[i + 1]@);
                    assert(tv[i + 2] == ts@[i + 2]@);
                }
                match (x, y) {
                    (Some(x), Some(y)) => {
                        let ghost before = subpath_views(acc@);
                        let last = acc.len() - 1;
                        let mut sp = acc.remove(last);
                        sp.nodes.push(PathNode { x, y, in_handle: None, out_handle: None, width: None });
                        acc.push(sp);
                        proof {
                            assert(subpath_views(acc@) =~= add_node(before, sharp(x, y)));
                        }
                        i = i + 3;
                    },
                    _ => {
                        return None;
                    },
                }
            } else {
                return None;
            }
        } else if is_word(t, 'C') {
            if open && ts.len() - i > 6 {
                let x1 = coord_of(&ts[i + 1]);
                let y1 = coord_of(&ts[i + 2]);
                let x2 = coord_of(&ts[i + 3]);
                let y2 = coord_of(&ts[i + 4]);
                let x = coord_of(&ts[i + 5]);
                let y = coord_of(&ts[i + 6]);
                proof {
                    assert(tv[i + 1] == ts@[i + 1]@);
                    assert(tv[i + 2] == ts@[i + 2]@);
                    assert(tv[i + 3] == ts@[i + 3]@);
                    assert(tv[i + 4] == ts@[i + 4]@);
                    assert(tv[i + 5] == ts@[i + 5]@);
                    assert(tv[i + 6] == ts@[i + 6]@);
                }
                if x1.is_some() && y1.is_some() && x2.is_some() && y2.is_some() && x.is_some() && y.is_some() {
                    let h1 = LocalPoint { x: x1.unwrap(), y: y1.unwrap() };
                    let h2 = LocalPoint { x: x2.unwrap(), y: y2.unwrap() };
                    let xv = x.unwrap();
                    let yv = y.unwrap();
                    let ghost before = subpath_views(acc@);
                    let last = acc.len() - 1;
                    let mut sp = acc.remove(last);
                    let ln = sp.nodes.len() - 1;
                    let mut prev = sp.nodes[ln];
                    prev.out_handle = Some(h1);
                    sp.nodes.set(ln, prev);
                    sp.nodes.push(PathNode { x: xv, y: yv, in_handle: Some(h2), out_handle: None, width: None });
                    acc.push(sp);
                    proof {
                        assert(subpath_views(acc@) =~= add_curve(before, h1, h2, xv, yv));
                    }
                    i = i + 7;
                } else {
                    return None;
                }
            } else {
                return None;
            }
        } else if is_word(t, 'Z') {
            if open {
                let ghost before = subpath_views(acc@);
                let last = acc.len() - 1;
                let mut sp = acc.remove(last);
                sp.closed = true;
                acc.push(sp);
                proof {
                    assert(subpath_views(acc@) =~= close_last(before));
                }
                open = false;
                i = i + 1;
            } else {
                return None;
            }
        } else {
            return None;
        }
    }
    Some(acc)
}

// ---------------------------------------------------------------------------
// Writing
// ---------------------------------------------------------------------------

pub open spec fn point_text(x: i32, y: i32) -> Seq<char> {
    decimal(x as int) + " "@ + decimal(y as int)
}

/// The segment from `prev` to `n`: a line when neither handle is set, else a
/// curve whose missing handles sit on their nodes.
pub open spec fn segment_text(prev: PathNode, n: PathNode) -> Seq<char> {
    if prev.out_handle is None && n.in_handle is None {
        " L "@ + point_text(n.x, n.y)
    } else {
        let h1 = match prev.out_handle {
            Some(h) => h,
            None => LocalPoint { x: prev.x, y: prev.y },
        };
        let h2 = match n.in_handle {
            Some(h) => h,
            None => LocalPoint { x: n.x, y: n.y },
        };
        " C "@ + point_text(h1.x, h1.y) + " "@ + point_text(h2.x, h2.y) + " "@ + point_text(n.x, n.y)
    }
}

/// The segments of `nodes[1..k]`.
pub open spec fn segments_text(nodes: Seq<PathNode>, k: int) -> Seq<char>
    decreases k,
{
    if k <= 1 || k > nodes.len() {
        seq![]
    } else {
        segments_text(nodes, k - 1) + segment_text(nodes[k - 2], nodes[k - 1])
    }
}

/// One subpath's text (empty for a subpath without nodes).
pub open spec fn subpath_text(sp: SubPathView) -> Seq<char> {
    if sp.nodes.len() == 0 {
        seq![]
    } else {
        "M "@ + point_text(sp.nodes[0].x, sp.nodes[0].y) + segments_text(sp.nodes, sp.nodes.len() as int)
            + if sp.closed {
            " Z"@
        } else {
            seq![]
        }
    }
}

/// The path text of `sps`: each non-empty subpath's text, separated by spaces.
pub open spec fn path_text(sps: Seq<SubPathView>) -> Seq<char>
    decreases sps.len(),
{
    if sps.len() == 0 {
        seq![]
    } else {
        let rest = path_text(sps.drop_last());
        let t = subpath_text(sps.last());
        if t.len() == 0 {
            rest
        } else if rest.len() == 0 {
            t
        } else {
            rest + " "@ + t
        }
    }
}

fn push_point(s: &mut String, x: i32, y: i32)
    ensures
        final(s)@ == old(s)@ + point_text(x, y),
{
    push_decimal(s, x as i64);
    push_str(s, " ");
    push_decimal(s, y as i64);
}

fn push_segment(s: &mut String, prev: PathNode, n: PathNode)
    ensures
        final(s)@ == old(s)@ + segment_text(prev, n),
{
    if prev.out_handle.is_none() && n.in_handle.is_none() {
        push_str(s, " L ");
        push_point(s, n.x, n.y);
    } else {
        let h1 = match prev.out_handle {
            Some(h) => h,
            None => LocalPoint { x: prev.x, y: prev.y },
        };
        let h2 = match n.in_handle {
            Some(h) => h,
            None => LocalPoint { x: n.x, y: n.y },
        };
        push_str(s, " C ");
        push_point(s, h1.x, h1.y);
        push_str(s, " ");
        push_point(s, h2.x, h2.y);
        push_str(s, " ");
        push_point(s, n.x, n.y);
    }
}

fn subpath_string(sp: &SubPath) -> (r: String)
    ensures
        r@ == subpath_text(sp@),
{
    let mut s = String::new();
    if sp.nodes.len() == 0 {
        return s;
    }
    push_str(&mut s, "M ");
    push_point(&mut s, sp.nodes[0].x, sp.nodes[0].y);
    let ghost head = "M "@ + point_text(sp.nodes@[0].x, sp.nodes@[0].y);
    let mut k: usize = 1;
    while k < sp.nodes.len()
        invariant
            1 <= k <= sp.nodes@.len(),
            s@ == head + segments_text(sp.nodes@, k as int),
        decreases sp.nodes@.len() - k,
    {
        push_segment(&mut s, sp.nodes[k - 1], sp.nodes[k]);
        proof {
            assert(segments_text(sp.nodes@, k + 1) == segments_text(sp.nodes@, k as int) + segment_text(
                sp.nodes@[k - 1],
                sp.nodes@[k as int],
            ));
        }
        k = k + 1;
    }
    if sp.closed {
        push_str(&mut s, " Z");
    }
    proof {
        assert(sp@.nodes == sp.nodes@);
    }
    s
}

/// The path text of `subpaths`.
pub fn path_string_of(subpaths: &Vec<SubPath>) -> (r: String)
    ensures
        r@ == path_text(subpath_views(subpaths@)),
{
    let mut s = String::new();
    let mut i: usize = 0;
    while i < subpaths.len()
        invariant
            i <= subpaths@.len(),
            s@ == path_text(subpath_views(subpaths@).subrange(0, i as int)),
        decreases subpaths@.len() - i,
    {
        let t = subpath_string(&subpaths[i]);
        proof {
            let p = subpath_views(subpaths@).subrange(0, i + 1);
            assert(p.drop_last() =~= subpath_views(subpaths@).subrange(0, i as int));
            assert(p.last() == subpaths@[i as int]@);
        }
        if t.unicode_len() > 0 {
            if s.unicode_len() > 0 {
                push_str(&mut s, " ");
            }
            push_str(&mut s, t.as_str());
        }
        i = i + 1;
    }
    proof {
        assert(subpath_views(subpaths@).subrange(0, subpaths@.len() as int) =~= subpath_views(subpaths@));
    }
    s
}

impl Geometry {
    /// Geometry with the given subpaths and the path text they write to.
    pub fn from_subpaths(subpaths: Vec<SubPath>, fill_rule: FillRule) -> (r: Self)
        ensures
            r@.path_string == path_text(subpath_views(subpaths@)),
            r@.fill_rule == fill_rule,
            r@.subpaths == subpath_views(subpaths@),
    {
        let path_string = path_string_of(&subpaths);
        Geometry { path_string, fill_rule, subpaths }
    }

    /// Reads the path text into subpaths when none are held yet. Fails, and
    /// leaves the geometry unchanged, when the text is malformed.
    pub fn ensure_parsed(&mut self) -> (r: Result<(), String>)
        ensures
            match r {
                Ok(()) => parses(old(self)@) && final(self)@ == ensured(old(self)@),
                Err(e) => e@ == bad_path_message() && final(self)@ == old(self)@ && !parses(old(self)@),
            },
    {
        if self.subpaths.len() > 0 {
            return Ok(());
        }
        match parse_path_text(self.path_string.as_str()) {
            Some(v) => {
                self.subpaths = v;
                Ok(())
            },
            None => Err("malformed path data".to_owned()),
        }
    }

    /// A copy with its path text read.
    pub fn parsed(&self) -> (r: Result<Geometry, String>)
        ensures
            match r {
                Ok(g) => parses(self@) && g@ == ensured(self@),
                Err(e) => e@ == bad_path_message() && !parses(self@),
            },
    {
        let mut g = self.copy_of();
        match g.ensure_parsed() {
            Ok(()) => Ok(g),
            Err(e) => Err(e),
        }
    }
}

/// Whether a geometry is usable: it holds subpaths already, or its path text
/// reads.
pub open spec fn parses(g: crate::object::model::GeometryView) -> bool {
    g.subpaths.len() > 0 || parse_path(g.path_string) is Some
}

/// A geometry after its path text is read (unchanged when it already holds
/// subpaths).
pub open spec fn ensured(g: crate::object::model::GeometryView) -> crate::object::model::GeometryView {
    if g.subpaths.len() > 0 {
        g
    } else {
        match parse_path(g.path_string) {
            Some(sps) => crate::object::model::GeometryView { subpaths: sps, ..g },
            None => g,
        }
    }
}

} // verus!
