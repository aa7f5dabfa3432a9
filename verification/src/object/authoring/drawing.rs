//! Erasing strokes: cutting a path at a touched node.

use vstd::prelude::*;

use crate::object::model::{subpath_views, Geometry, PathNode, SubPath, SubPathView};
use crate::object::path::path_text;

verus! {

pub open spec fn node_dist(n: PathNode, x: i32, y: i32) -> int {
    (n.x - x) * (n.x - x) + (n.y - y) * (n.y - y)
}

/// Node `ni` of subpath `si` lies within `radius` of `(x, y)`.
pub open spec fn within(sps: Seq<SubPathView>, x: i32, y: i32, radius: i32, si: int, ni: int) -> bool {
    &&& 0 <= si < sps.len()
    &&& 0 <= ni < sps[si].nodes.len()
    &&& node_dist(sps[si].nodes[ni], x, y) <= radius * radius
}

/// `(si, ni)` comes before `(sj, nj)` in scan order.
pub open spec fn scans_before(si: int, ni: int, sj: int, nj: int) -> bool {
    si < sj || (si == sj && ni < nj)
}

/// Node `(si, ni)` is the node to cut: within the radius, nearest of all
/// such, and strictly nearer than every such node scanned before it.
pub open spec fn cut_node(sps: Seq<SubPathView>, x: i32, y: i32, radius: i32, si: int, ni: int) -> bool {
    &&& within(sps, x, y, radius, si, ni)
    &&& forall|sj: int, nj: int|
        #![trigger sps[sj].nodes[nj]]
        within(sps, x, y, radius, sj, nj) ==> node_dist(sps[si].nodes[ni], x, y) <= node_dist(
            sps[sj].nodes[nj],
            x,
            y,
        )
    &&& forall|sj: int, nj: int|
        #![trigger sps[sj].nodes[nj]]
        within(sps, x, y, radius, sj, nj) && scans_before(sj, nj, si, ni) ==> node_dist(
            sps[si].nodes[ni],
            x,
            y,
        ) < node_dist(sps[sj].nodes[nj], x, y)
}

/// An open subpath of `nodes`, without the handles that pointed past its ends.
pub open spec fn open_piece(nodes: Seq<PathNode>) -> SubPathView {
    let n = nodes.len();
    let a = nodes.update(0, PathNode { in_handle: None, ..nodes[0] });
    let b = a.update(n - 1, PathNode { out_handle: None, ..a[n - 1] });
    SubPathView { closed: false, nodes: b }
}

/// What is left of subpath `sp` once node `ni` is removed: the pieces before
/// and after it, each kept only with at least two nodes.
pub open spec fn pieces(sp: SubPathView, ni: int) -> Seq<SubPathView> {
    let left = sp.nodes.subrange(0, ni);
    let right = sp.nodes.subrange(ni + 1, sp.nodes.len() as int);
    (if left.len() >= 2 {
        seq![open_piece(left)]
    } else {
        seq![]
    }) + (if right.len() >= 2 {
        seq![open_piece(right)]
    } else {
        seq![]
    })
}

/// The subpaths after cutting node `ni` of subpath `si` (first `k` subpaths).
pub open spec fn cut_upto(sps: Seq<SubPathView>, si: int, ni: int, k: int) -> Seq<SubPathView>
    decreases k,
{
    if k <= 0 {
        seq![]
    } else if k - 1 == si {
        cut_upto(sps, si, ni, k - 1) + pieces(sps[k - 1], ni)
    } else {
        cut_upto(sps, si, ni, k - 1).push(sps[k - 1])
    }
}

fn dist_of(n: PathNode, x: i32, y: i32) -> (r: i128)
    ensures
        r == node_dist(n, x, y),
{
    let dx = n.x as i128 - x as i128;
    let dy = n.y as i128 - y as i128;
    proof {
        assert(0 <= dx * dx <= 0x1_0000_0000_0000_0000) by (nonlinear_arith)
            requires
                -0x1_0000_0000 <= dx <= 0x1_0000_0000,
        ;
        assert(0 <= dy * dy <= 0x1_0000_0000_0000_0000) by (nonlinear_arith)
            requires
                -0x1_0000_0000 <= dy <= 0x1_0000_0000,
        ;
    }
    dx * dx + dy * dy
}

fn open_piece_of(nodes: &[PathNode]) -> (r: SubPath)
    requires
        nodes@.len() >= 1,
    ensures
        r@ == open_piece(nodes@),
{
    let mut v: Vec<PathNode> = Vec::new();
    let mut i: usize = 0;
    while i < nodes.len()
        invariant
            i <= nodes@.len(),
            v@ == nodes@.subrange(0, i as int),
        decreases nodes@.len() - i,
    {
        v.push(nodes[i]);
        proof {
            assert(v@ =~= nodes@.subrange(0, i + 1));
        }
        i = i + 1;
    }
    proof {
        assert(v@ =~= nodes@);
    }
    let mut first = v[0];
    first.in_handle = None;
    v.set(0, first);
    let n = v.len();
    let mut last = v[n - 1];
    last.out_handle = None;
    v.set(n - 1, last);
    SubPath { closed: false, nodes: v }
}

fn copy_range_nodes(nodes: &Vec<PathNode>, start: usize, end: usize) -> (r: Vec<PathNode>)
    requires
        start <= end <= nodes@.len(),
    ensures
        r@ == nodes@.subrange(start as int, end as int),
{
    let mut v: Vec<PathNode> = Vec::new();
    let mut i = start;
    while i < end
        invariant
            start <= i <= end,
            end <= nodes@.len(),
            v@ == nodes@.subrange(start as int, i as int),
        decreases end - i,
    {
        v.push(nodes[i]);
        proof {
            assert(v@ =~= nodes@.subrange(start as int, i + 1));
        }
        i = i + 1;
    }
    v
}

/// Cuts a stroke's geometry at a touched point: the node nearest `(x, y)`
/// within `radius` (object-local quantized units) is removed, splitting its
/// subpath into open pieces; a piece with fewer than two nodes is dropped.
/// `None` when no node is within `radius`.
pub fn split_subpath_at(geometry: &Geometry, x: i32, y: i32, radius: i32) -> (r: Option<Geometry>)
    ensures
        ({
            let sps = subpath_views(geometry.subpaths@);
            match r {
                None => forall|sj: int, nj: int| !within(sps, x, y, radius, sj, nj),
                Some(g) => exists|si: int, ni: int|
                    cut_node(sps, x, y, radius, si, ni) && g@.subpaths == cut_upto(
                        sps,
                        si,
                        ni,
                        sps.len() as int,
                    ) && g@.path_string == path_text(g@.subpaths) && g@.fill_rule == geometry.fill_rule,
            }
        }),
{
    let ghost sps = subpath_views(geometry.subpaths@);
    let r128 = radius as i128;
    proof {
        assert(0 <= r128 * r128 <= 0x1_0000_0000_0000_0000) by (nonlinear_arith)
            requires
                -0x1_0000_0000 <= r128 <= 0x1_0000_0000,
        ;
    }
    let radius_sq: i128 = r128 * r128;
    let mut best: Option<(usize, usize, i128)> = None;
    let mut si: usize = 0;
    while si < geometry.subpaths.len()
        invariant
            si <= geometry.subpaths@.len(),
            sps == subpath_views(geometry.subpaths@),
            radius_sq == radius * radius,
            match best {
                None => forall|sj: int, nj: int| sj < si ==> !within(sps, x, y, radius, sj, nj),
                Some((bs, bn, bd)) => bs < si && within(sps, x, y, radius, bs as int, bn as int) && bd == node_dist(
                    sps[bs as int].nodes[bn as int],
                    x,
                    y,
                ) && (forall|sj: int, nj: int|
                    #![trigger sps[sj].nodes[nj]]
                    sj < si && within(sps, x, y, radius, sj, nj) ==> bd <= node_dist(sps[sj].nodes[nj], x, y))
                    && (forall|sj: int, nj: int|
                    #![trigger sps[sj].nodes[nj]]
                    within(sps, x, y, radius, sj, nj) && scans_before(sj, nj, bs as int, bn as int) ==> bd
                        < node_dist(sps[sj].nodes[nj], x, y)),
            },
        decreases geometry.subpaths@.len() - si,
    {
        let sp = &geometry.subpaths[si];
        proof {
            assert(sps[si as int] == sp@);
        }
        let mut ni: usize = 0;
        while ni < sp.nodes.len()
            invariant
                si < geometry.subpaths@.len(),
                ni <= sp.nodes@.len(),
                sps == subpath_views(geometry.subpaths@),
                sps[si as int] == sp@,
                radius_sq == radius * radius,
                match best {
                    None => (forall|sj: int, nj: int| sj < si ==> !within(sps, x, y, radius, sj, nj)) && (forall|
                        nj: int,
                    | nj < ni ==> !within(sps, x, y, radius, si as int, nj)),
                    Some((bs, bn, bd)) => (bs < si || (bs == si && bn < ni)) && within(
                        sps,
                        x,
                        y,
                        radius,
                        bs as int,
                        bn as int,
                    ) && bd == node_dist(sps[bs as int].nodes[bn as int], x, y) && (forall|sj: int, nj: int|
                        #![trigger sps[sj].nodes[nj]]
                        (sj < si || (sj == si && nj < ni)) && within(sps, x, y, radius, sj, nj) ==> bd <= node_dist(
                            sps[sj].nodes[nj],
                            x,
                            y,
                        )) && (forall|sj: int, nj: int|
                        #![trigger sps[sj].nodes[nj]]
                        within(sps, x, y, radius, sj, nj) && scans_before(sj, nj, bs as int, bn as int) ==> bd
                            < node_dist(sps[sj].nodes[nj], x, y)),
                },
            decreases sp.nodes@.len() - ni,
        {
            let d = dist_of(sp.nodes[ni], x, y);
            proof {
                assert(sps[si as int].nodes[ni as int] == sp.nodes@[ni as int]);
            }
            let better = match best {
                None => true,
                Some((_, _, b)) => d < b,
            };
            if d <= radius_sq && better {
                best = Some((si, ni, d));
            }
            ni = ni + 1;
        }
        si = si + 1;
    }
    let (ts, tn) = match best {
        None => return None,
        Some((bs, bn, _)) => (bs, bn),
    };
    proof {
        assert(cut_node(sps, x, y, radius, ts as int, tn as int));
    }
    let mut out: Vec<SubPath> = Vec::new();
    let mut k: usize = 0;
    while k < geometry.subpaths.len()
        invariant
            k <= geometry.subpaths@.len(),
            ts < geometry.subpaths@.len(),
            tn < sps[ts as int].nodes.len(),
            sps == subpath_views(geometry.subpaths@),
            subpath_views(out@) == cut_upto(sps, ts as int, tn as int, k as int),
        decreases geometry.subpaths@.len() - k,
    {
        let sp = &geometry.subpaths[k];
        proof {
            assert(sps[k as int] == sp@);
        }
        let ghost before = subpath_views(out@);
        if k != ts {
            out.push(sp.copy_of());
            proof {
                assert(subpath_views(out@) =~= before.push(sp@));
            }
        } else {
            let n = sp.nodes.len();
            if tn >= 2 {
                let left = copy_range_nodes(&sp.nodes, 0, tn);
                let piece = open_piece_of(left.as_slice());
                out.push(piece);
            }
            let ghost mid = subpath_views(out@);
            if n - tn - 1 >= 2 {
                let right = copy_range_nodes(&sp.nodes, tn + 1, n);
                let piece = open_piece_of(right.as_slice());
                out.push(piece);
            }
            proof {
                assert(subpath_views(out@) =~= before + pieces(sp@, tn as int));
            }
        }
        k = k + 1;
    }
    Some(Geometry::from_subpaths(out, geometry.fill_rule))
}

} // verus!
