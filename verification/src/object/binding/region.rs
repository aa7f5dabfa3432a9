//! Derived outline/region: geometry to outline, bounds and open/closed, plus
//! point-in-polygon and anchor re-projection onto an outline. Coordinates are
//! object-local quantized integers.

use vstd::prelude::*;

use crate::object::model::{subpath_views, Geometry, GeometryView, LocalPoint, SubPathView};

verus! {

#[derive(Clone, Copy, Debug, PartialEq, Eq, Structural)]
pub struct LocalBounds {
    pub min_x: i32,
    pub min_y: i32,
    pub max_x: i32,
    pub max_y: i32,
}

/// An outline with its bounds; `closed` records a filled interior versus an
/// open stroke.
#[derive(Clone, Debug, PartialEq, Eq)]
pub struct Region {
    pub outline: Vec<LocalPoint>,
    pub bounds: LocalBounds,
    pub closed: bool,
}

pub struct RegionView {
    pub outline: Seq<LocalPoint>,
    pub bounds: LocalBounds,
    pub closed: bool,
}

impl View for Region {
    type V = RegionView;

    open spec fn view(&self) -> RegionView {
        RegionView { outline: self.outline@, bounds: self.bounds, closed: self.closed }
    }
}

#[derive(Clone, Copy, Debug, PartialEq, Eq, Structural)]
pub enum RegionError {
    Empty,
    Degenerate,
}

/// The contract every consumer (fill, text, hit-test, anchor) shares.
/// `flatness` is the curve-flattening tolerance in quantized units.
pub trait OutlineDeriver {
    /// The region (or the error) this deriver derives from a geometry at a
    /// tolerance.
    spec fn region_of(&self, geometry: GeometryView, flatness: i32) -> Result<RegionView, RegionError>;

    fn derive_region(&self, geometry: &Geometry, flatness: i32) -> (r: Result<Region, RegionError>)
        ensures
            self.region_of(geometry@, flatness) == match r {
                Ok(region) => Ok::<RegionView, RegionError>(region@),
                Err(e) => Err::<RegionView, RegionError>(e),
            },
    ;

    /// Whether `p` lies inside the region's outline (even-odd rule).
    fn contains(&self, region: &Region, p: LocalPoint) -> (r: bool)
        ensures
            r == inside(region@.outline, p),
    {
        point_in_polygon(&region.outline, p)
    }

    /// Re-projects an anchor's local point onto a (possibly edited) region
    /// without drift: the nearest outline vertex (the first of equally near
    /// ones), or the point itself on an empty outline.
    fn reproject(&self, region: &Region, at: LocalPoint) -> (r: LocalPoint)
        ensures
            r == nearest_or(region@.outline, at),
    {
        match nearest_on_outline(&region.outline, at) {
            Some(q) => {
                proof {
                    lemma_nearest_unique(region.outline@, at);
                }
                q
            },
            None => at,
        }
    }
}

/// The outline point nearest `at` (the first of equally near ones), or `at`
/// itself on an empty outline.
pub open spec fn nearest_or(outline: Seq<LocalPoint>, at: LocalPoint) -> LocalPoint {
    if exists|i: int| nearest_index(outline, at, i) {
        outline[choose|i: int| nearest_index(outline, at, i)]
    } else {
        at
    }
}

/// There is at most one nearest index.
pub proof fn lemma_nearest_unique(poly: Seq<LocalPoint>, at: LocalPoint)
    ensures
        forall|i: int, j: int| nearest_index(poly, at, i) && nearest_index(poly, at, j) ==> i == j,
{
    assert forall|i: int, j: int| nearest_index(poly, at, i) && nearest_index(poly, at, j) implies i == j by {
        if i < j {
            assert(dist_sq(poly[j], at) < dist_sq(poly[i], at));
        } else if j < i {
            assert(dist_sq(poly[i], at) < dist_sq(poly[j], at));
        }
    }
}

/// The nodes of every subpath, in order, as outline points.
pub open spec fn flat_outline(sps: Seq<SubPathView>) -> Seq<LocalPoint>
    decreases sps.len(),
{
    if sps.len() == 0 {
        seq![]
    } else {
        flat_outline(sps.drop_last()) + sps.last().nodes.map_values(
            |n: crate::object::model::PathNode| LocalPoint { x: n.x, y: n.y },
        )
    }
}

pub open spec fn any_closed(sps: Seq<SubPathView>) -> bool {
    exists|i: int| 0 <= i < sps.len() && sps[i].closed
}

/// The bounds of the first `n` points of a non-empty outline.
pub open spec fn bounds_of(pts: Seq<LocalPoint>, n: int) -> LocalBounds
    decreases n,
{
    if n <= 1 {
        LocalBounds { min_x: pts[0].x, min_y: pts[0].y, max_x: pts[0].x, max_y: pts[0].y }
    } else {
        let b = bounds_of(pts, n - 1);
        let p = pts[n - 1];
        LocalBounds {
            min_x: if p.x < b.min_x { p.x } else { b.min_x },
            min_y: if p.y < b.min_y { p.y } else { b.min_y },
            max_x: if p.x > b.max_x { p.x } else { b.max_x },
            max_y: if p.y > b.max_y { p.y } else { b.max_y },
        }
    }
}

/// Reference deriver: the outline is the subpath node positions (no curve
/// subdivision), with their bounding box.
#[derive(Clone, Copy, Debug, Default)]
pub struct StubOutlineDeriver;

/// The region the reference deriver gives: the subpath nodes as the
/// outline with their bounds, closed when some subpath is; no nodes is
/// `Empty`, one node `Degenerate`.
pub open spec fn stub_region(sps: Seq<SubPathView>) -> Result<RegionView, RegionError> {
    let pts = flat_outline(sps);
    if pts.len() == 0 {
        Err(RegionError::Empty)
    } else if pts.len() == 1 {
        Err(RegionError::Degenerate)
    } else {
        Ok(RegionView { outline: pts, bounds: bounds_of(pts, pts.len() as int), closed: any_closed(sps) })
    }
}

impl OutlineDeriver for StubOutlineDeriver {
    open spec fn region_of(&self, geometry: GeometryView, flatness: i32) -> Result<RegionView, RegionError> {
        stub_region(geometry.subpaths)
    }

    fn derive_region(&self, geometry: &Geometry, flatness: i32) -> (r: Result<Region, RegionError>)
        ensures
            ({
                let pts = flat_outline(subpath_views(geometry.subpaths@));
                match r {
                    Ok(region) => pts.len() >= 2 && region.outline@ == pts && region.closed == any_closed(
                        subpath_views(geometry.subpaths@),
                    ) && region.bounds == bounds_of(pts, pts.len() as int),
                    Err(e) => (pts.len() == 0 && e == RegionError::Empty) || (pts.len() == 1 && e
                        == RegionError::Degenerate),
                }
            }),
    {
        let ghost sps = subpath_views(geometry.subpaths@);
        let mut outline: Vec<LocalPoint> = Vec::new();
        let mut any = false;
        let mut si: usize = 0;
        while si < geometry.subpaths.len()
            invariant
                si <= geometry.subpaths@.len(),
                sps == subpath_views(geometry.subpaths@),
                outline@ == flat_outline(sps.subrange(0, si as int)),
                any == any_closed(sps.subrange(0, si as int)),
            decreases geometry.subpaths@.len() - si,
        {
            let sp = &geometry.subpaths[si];
            proof {
                assert(sps[si as int] == sp@);
            }
            if sp.closed {
                any = true;
            }
            let ghost base = outline@;
            let mut ni: usize = 0;
            while ni < sp.nodes.len()
                invariant
                    ni <= sp.nodes@.len(),
                    outline@ == base + sp.nodes@.subrange(0, ni as int).map_values(
                        |n: crate::object::model::PathNode| LocalPoint { x: n.x, y: n.y },
                    ),
                decreases sp.nodes@.len() - ni,
            {
                let n = sp.nodes[ni];
                outline.push(LocalPoint { x: n.x, y: n.y });
                proof {
                    assert(sp.nodes@.subrange(0, ni + 1).map_values(
                        |n: crate::object::model::PathNode| LocalPoint { x: n.x, y: n.y },
                    ) =~= sp.nodes@.subrange(0, ni as int).map_values(
                        |n: crate::object::model::PathNode| LocalPoint { x: n.x, y: n.y },
                    ).push(LocalPoint { x: n.x, y: n.y }));
                }
                ni = ni + 1;
            }
            proof {
                let t = sps.subrange(0, si + 1);
                assert(t.drop_last() =~= sps.subrange(0, si as int));
                assert(t.last() == sp@);
                assert(sp.nodes@.subrange(0, sp.nodes@.len() as int) =~= sp.nodes@);
                if any_closed(t) {
                    let w = choose|w: int| 0 <= w < t.len() && t[w].closed;
                    if w < si {
                        assert(sps.subrange(0, si as int)[w] == t[w]);
                    }
                }
                if any_closed(sps.subrange(0, si as int)) {
                    let w = choose|w: int| 0 <= w < si && sps.subrange(0, si as int)[w].closed;
                    assert(t[w] == sps.subrange(0, si as int)[w]);
                }
            }
            si = si + 1;
        }
        proof {
            assert(sps.subrange(0, sps.len() as int) =~= sps);
        }
        if outline.len() == 0 {
            return Err(RegionError::Empty);
        }
        if outline.len() < 2 {
            return Err(RegionError::Degenerate);
        }
        let mut b = LocalBounds { min_x: outline[0].x, min_y: outline[0].y, max_x: outline[0].x, max_y: outline[0].y };
        let mut k: usize = 1;
        while k < outline.len()
            invariant
                1 <= k <= outline@.len(),
                b == bounds_of(outline@, k as int),
            decreases outline@.len() - k,
        {
            let p = outline[k];
            b = LocalBounds {
                min_x: if p.x < b.min_x { p.x } else { b.min_x },
                min_y: if p.y < b.min_y { p.y } else { b.min_y },
                max_x: if p.x > b.max_x { p.x } else { b.max_x },
                max_y: if p.y > b.max_y { p.y } else { b.max_y },
            };
            k = k + 1;
        }
        Ok(Region { outline, bounds: b, closed: any })
    }
}

/// Whether the edge from the previous vertex to vertex `i` crosses the
/// horizontal ray from `p` toward `+x` (the even-odd rule's test).
pub open spec fn edge_crosses(poly: Seq<LocalPoint>, p: LocalPoint, i: int) -> bool {
    let j = if i == 0 { poly.len() - 1 } else { i - 1 };
    let (xi, yi) = (poly[i].x as int, poly[i].y as int);
    let (xj, yj) = (poly[j].x as int, poly[j].y as int);
    let (px, py) = (p.x as int, p.y as int);
    if (yi > py) != (yj > py) {
        let dy = yj - yi;
        let lhs = (px - xi) * dy;
        let rhs = (xj - xi) * (py - yi);
        if dy > 0 {
            lhs < rhs
        } else {
            lhs > rhs
        }
    } else {
        false
    }
}

/// An odd number of the first `n` edges cross the ray.
pub open spec fn odd_crossings(poly: Seq<LocalPoint>, p: LocalPoint, n: int) -> bool
    decreases n,
{
    if n <= 0 {
        false
    } else {
        odd_crossings(poly, p, n - 1) != edge_crosses(poly, p, n - 1)
    }
}

/// Even-odd point-in-polygon: an odd number of polygon edges cross the ray
/// from `p`; polygons of fewer than three points contain nothing.
pub open spec fn inside(poly: Seq<LocalPoint>, p: LocalPoint) -> bool {
    poly.len() >= 3 && odd_crossings(poly, p, poly.len() as int)
}

/// `a * b` for factors of at most 33 bits.
fn small_mul(a: i128, b: i128) -> (r: i128)
    requires
        -0x2_0000_0000 <= a <= 0x2_0000_0000,
        -0x2_0000_0000 <= b <= 0x2_0000_0000,
    ensures
        r == a * b,
{
    proof {
        assert(-0x4_0000_0000_0000_0000 <= a * b <= 0x4_0000_0000_0000_0000) by (nonlinear_arith)
            requires
                -0x2_0000_0000 <= a <= 0x2_0000_0000,
                -0x2_0000_0000 <= b <= 0x2_0000_0000,
        ;
    }
    a * b
}

/// Even-odd ray-cast point-in-polygon on integer coordinates (products taken
/// exactly).
pub fn point_in_polygon(poly: &[LocalPoint], p: LocalPoint) -> (r: bool)
    ensures
        r == inside(poly@, p),
{
    if poly.len() < 3 {
        return false;
    }
    let px = p.x as i128;
    let py = p.y as i128;
    let mut inside_now = false;
    let mut j = poly.len() - 1;
    let mut i: usize = 0;
    while i < poly.len()
        invariant
            poly@.len() >= 3,
            i <= poly@.len(),
            j == if i == 0 { poly@.len() - 1 } else { i - 1 },
            px == p.x as int,
            py == p.y as int,
            inside_now == odd_crossings(poly@, p, i as int),
        decreases poly@.len() - i,
    {
        let xi = poly[i].x as i128;
        let yi = poly[i].y as i128;
        let xj = poly[j].x as i128;
        let yj = poly[j].y as i128;
        let mut crosses = false;
        if (yi > py) != (yj > py) {
            let dy = yj - yi;
            let lhs = small_mul(px - xi, dy);
            let rhs = small_mul(xj - xi, py - yi);
            crosses = if dy > 0 { lhs < rhs } else { lhs > rhs };
        }
        proof {
            assert(crosses == edge_crosses(poly@, p, i as int));
        }
        if crosses {
            inside_now = !inside_now;
        }
        j = i;
        i = i + 1;
    }
    inside_now
}

pub open spec fn dist_sq(q: LocalPoint, at: LocalPoint) -> int {
    (q.x - at.x) * (q.x - at.x) + (q.y - at.y) * (q.y - at.y)
}

/// `i` is the first outline point at the least squared distance from `at`.
pub open spec fn nearest_index(poly: Seq<LocalPoint>, at: LocalPoint, i: int) -> bool {
    &&& 0 <= i < poly.len()
    &&& forall|k: int| 0 <= k < poly.len() ==> dist_sq(poly[i], at) <= dist_sq(#[trigger] poly[k], at)
    &&& forall|k: int| 0 <= k < i ==> dist_sq(poly[i], at) < dist_sq(#[trigger] poly[k], at)
}

fn dist_sq_of(q: LocalPoint, at: LocalPoint) -> (r: i128)
    ensures
        r == dist_sq(q, at),
{
    let dx = q.x as i128 - at.x as i128;
    let dy = q.y as i128 - at.y as i128;
    proof {
        assert(dx * dx <= 0x1_0000_0000_0000_0000) by (nonlinear_arith)
            requires
                -0x1_0000_0000 <= dx <= 0x1_0000_0000,
        ;
        assert(dy * dy <= 0x1_0000_0000_0000_0000) by (nonlinear_arith)
            requires
                -0x1_0000_0000 <= dy <= 0x1_0000_0000,
        ;
        assert(dx * dx >= 0) by (nonlinear_arith);
        assert(dy * dy >= 0) by (nonlinear_arith);
    }
    dx * dx + dy * dy
}

/// The outline point nearest `at` (the first of equally near ones).
pub fn nearest_on_outline(poly: &[LocalPoint], at: LocalPoint) -> (r: Option<LocalPoint>)
    ensures
        match r {
            Some(q) => exists|i: int| nearest_index(poly@, at, i) && poly@[i] == q,
            None => poly@.len() == 0,
        },
{
    if poly.len() == 0 {
        return None;
    }
    let mut best: usize = 0;
    let mut best_d = dist_sq_of(poly[0], at);
    let mut k: usize = 1;
    while k < poly.len()
        invariant
            1 <= k <= poly@.len(),
            best < k,
            best_d == dist_sq(poly@[best as int], at),
            forall|q: int| 0 <= q < k ==> dist_sq(poly@[best as int], at) <= dist_sq(#[trigger] poly@[q], at),
            forall|q: int| 0 <= q < best ==> dist_sq(poly@[best as int], at) < dist_sq(#[trigger] poly@[q], at),
        decreases poly@.len() - k,
    {
        let d = dist_sq_of(poly[k], at);
        if d < best_d {
            best = k;
            best_d = d;
        }
        k = k + 1;
    }
    proof {
        assert(nearest_index(poly@, at, best as int));
    }
    Some(poly[best])
}

} // verus!
