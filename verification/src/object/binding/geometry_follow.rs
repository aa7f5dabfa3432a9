//! Anchored objects follow a committed batch that moves or reshapes their
//! targets, in chains: a follower that is rewritten is itself a reshaped
//! target for the next wave, so an object anchored to it follows too.
//!
//! A `set-transform` moves a target: its anchors' points ride the new
//! transform. An `edit-geometry` reshapes it: each anchor point is first
//! carried to the nearest point of the new outline. Waves run until one
//! rewrites nothing; each object is rewritten at most once, so a cycle of
//! bindings ends.

use vstd::prelude::*;

use crate::assoc::{assoc, first_index, lemma_assoc_absent, lemma_assoc_first, lemma_assoc_push, lemma_assoc_update};
use crate::object::anchor_follow::{
    all_endpoints, deformed_by, deforms, endpoint_anchored, is_open_path, lemma_deformed_by, lemma_reprojected_by,
    number_spans, open_path, pair_count, reprojected_by, reprojects, set_path_node,
};
use crate::object::binding::region::{nearest_or, OutlineDeriver, RegionView, RegionError};
use crate::object::model::{
    find_object, opt_str, Anchor, AnchorView, Geometry, GeometryView, LocalPoint, Object, ObjectScene, ObjectView,
    SubPathView, Transform3x3,
};
use crate::object::op::{op_view, op_views, ObjectOp, ObjectOpView};
use crate::object::path::{ensured, parses};
use crate::text::{contains_str, str_eq, strs};

verus! {

/// How a target changed within the batch.
pub enum MovedTarget {
    /// Moved: its new transform.
    Transform(Transform3x3),
    /// Reshaped: its new geometry.
    Reshape(Geometry),
}

pub enum MovedTargetView {
    Transform(Transform3x3),
    Reshape(GeometryView),
}

impl View for MovedTarget {
    type V = MovedTargetView;

    open spec fn view(&self) -> MovedTargetView {
        match self {
            MovedTarget::Transform(t) => MovedTargetView::Transform(*t),
            MovedTarget::Reshape(g) => MovedTargetView::Reshape(g@),
        }
    }
}

/// The changes the first `k` ops of the batch make to scene objects, the
/// last write to each winning.
pub open spec fn seeded_upto(
    objects: Seq<ObjectView>,
    ops: Seq<ObjectOpView>,
    k: int,
) -> Map<Seq<char>, MovedTargetView>
    decreases k,
{
    if k <= 0 {
        Map::empty()
    } else {
        let m = seeded_upto(objects, ops, k - 1);
        match ops[k - 1] {
            ObjectOpView::SetTransform { id, transform } => if find_object(objects, id) is Some {
                m.insert(id, MovedTargetView::Transform(transform))
            } else {
                m
            },
            ObjectOpView::EditGeometry { id, geometry } => if find_object(objects, id) is Some {
                m.insert(id, MovedTargetView::Reshape(geometry))
            } else {
                m
            },
            _ => m,
        }
    }
}

/// Where the node of anchor `a` of follower `f` goes, given the changed
/// targets `m`: through the new transform of a moved target; for a reshaped
/// target whose new geometry reads and yields a region (at the finest
/// tolerance), the anchor point carried to the nearest point of the new
/// outline, through the target's transform.
pub open spec fn node_from<O: OutlineDeriver>(
    deriver: O,
    objects: Seq<ObjectView>,
    m: Map<Seq<char>, MovedTargetView>,
    f: ObjectView,
    a: AnchorView,
    rq: spec_fn(Transform3x3, Transform3x3, LocalPoint) -> (i64, i64),
) -> Option<(i64, i64)> {
    if !m.contains_key(a.target) || find_object(objects, a.target) is None {
        None
    } else {
        let target = find_object(objects, a.target)->0;
        match m[a.target] {
            MovedTargetView::Transform(t) => Some(rq(f.transform, t, a.at)),
            MovedTargetView::Reshape(g) => if !parses(g) {
                None
            } else {
                match deriver.region_of(ensured(g), 1) {
                    Err(_) => None,
                    Ok(region) => Some(rq(f.transform, target.transform, nearest_or(region.outline, a.at))),
                }
            },
        }
    }
}

/// The node splice over the first `k` anchors of `f` (see
/// [`crate::object::anchor_follow::splice_upto`]), nodes from [`node_from`].
pub open spec fn splice_by<O: OutlineDeriver>(
    deriver: O,
    objects: Seq<ObjectView>,
    m: Map<Seq<char>, MovedTargetView>,
    f: ObjectView,
    rq: spec_fn(Transform3x3, Transform3x3, LocalPoint) -> (i64, i64),
    k: int,
) -> Option<Seq<char>>
    decreases k,
{
    if k <= 0 {
        None
    } else {
        let prev = splice_by(deriver, objects, m, f, rq, k - 1);
        let a = f.anchors[k - 1];
        match node_from(deriver, objects, m, f, a, rq) {
            None => prev,
            Some(q) => {
                let cur = match prev {
                    Some(d) => d,
                    None => f.geometry.path_string,
                };
                match crate::object::anchor_follow::set_path(cur, a.node_index as int, q.0, q.1) {
                    Some(d) => Some(d),
                    None => prev,
                }
            },
        }
    }
}

/// The new endpoints over the first `k` anchors of `f` (see
/// [`crate::object::anchor_follow::ends_upto`]), nodes from [`node_from`].
pub open spec fn ends_by<O: OutlineDeriver>(
    deriver: O,
    objects: Seq<ObjectView>,
    m: Map<Seq<char>, MovedTargetView>,
    f: ObjectView,
    rq: spec_fn(Transform3x3, Transform3x3, LocalPoint) -> (i64, i64),
    k: int,
) -> (Option<(i64, i64)>, Option<(i64, i64)>)
    decreases k,
{
    if k <= 0 {
        (None, None)
    } else {
        let (s, e) = ends_by(deriver, objects, m, f, rq, k - 1);
        let a = f.anchors[k - 1];
        match node_from(deriver, objects, m, f, a, rq) {
            None => (s, e),
            Some(q) => if a.node_index == 0 {
                (Some(q), e)
            } else {
                (s, Some(q))
            },
        }
    }
}

/// The follower's new path text (see
/// [`crate::object::anchor_follow::follower_path`]), nodes from
/// [`node_from`].
pub open spec fn path_by<O: OutlineDeriver>(
    deriver: O,
    objects: Seq<ObjectView>,
    m: Map<Seq<char>, MovedTargetView>,
    f: ObjectView,
    rq: spec_fn(Transform3x3, Transform3x3, LocalPoint) -> (i64, i64),
    df: spec_fn(Seq<char>, Option<(i64, i64)>, Option<(i64, i64)>) -> Option<Seq<char>>,
) -> Option<Seq<char>> {
    let base = f.geometry.path_string;
    let n = pair_count(base);
    if n >= 2 && endpoint_anchored(f, n - 1) && open_path(base) {
        let se = ends_by(deriver, objects, m, f, rq, f.anchors.len() as int);
        if se.0 is None && se.1 is None {
            None
        } else {
            df(base, se.0, se.1)
        }
    } else {
        splice_by(deriver, objects, m, f, rq, f.anchors.len() as int)
    }
}

/// The follower's new geometry, when its path changes.
pub open spec fn geometry_by<O: OutlineDeriver>(
    deriver: O,
    objects: Seq<ObjectView>,
    m: Map<Seq<char>, MovedTargetView>,
    f: ObjectView,
    rq: spec_fn(Transform3x3, Transform3x3, LocalPoint) -> (i64, i64),
    df: spec_fn(Seq<char>, Option<(i64, i64)>, Option<(i64, i64)>) -> Option<Seq<char>>,
) -> Option<GeometryView> {
    match path_by(deriver, objects, m, f, rq, df) {
        Some(d) => if d != f.geometry.path_string {
            Some(GeometryView { path_string: d, fill_rule: f.geometry.fill_rule, subpaths: seq![] })
        } else {
            None
        },
        None => None,
    }
}

/// Some anchor of `f` targets an id of `frontier`.
pub open spec fn waits_on(f: ObjectView, frontier: Set<Seq<char>>) -> bool {
    exists|k: int| 0 <= k < f.anchors.len() && frontier.contains(#[trigger] f.anchors[k].target)
}

/// One wave over the first `j` objects: each object not changed yet, with
/// anchors, one of them on the wave's `frontier`, whose geometry changes, is
/// rewritten, joins the changed targets and the next frontier, and has its
/// edit authored. Returns the changed targets, the next frontier and the
/// edits.
pub open spec fn wave_upto<O: OutlineDeriver>(
    deriver: O,
    objects: Seq<ObjectView>,
    frontier: Set<Seq<char>>,
    m0: Map<Seq<char>, MovedTargetView>,
    rq: spec_fn(Transform3x3, Transform3x3, LocalPoint) -> (i64, i64),
    df: spec_fn(Seq<char>, Option<(i64, i64)>, Option<(i64, i64)>) -> Option<Seq<char>>,
    j: int,
) -> (Map<Seq<char>, MovedTargetView>, Set<Seq<char>>, Seq<ObjectOpView>)
    decreases j,
{
    if j <= 0 {
        (m0, Set::empty(), seq![])
    } else {
        let (m, next, out) = wave_upto(deriver, objects, frontier, m0, rq, df, j - 1);
        let f = objects[j - 1];
        if m.contains_key(f.id) || f.anchors.len() == 0 || !waits_on(f, frontier) {
            (m, next, out)
        } else {
            match geometry_by(deriver, objects, m, f, rq, df) {
                None => (m, next, out),
                Some(g) => (
                    m.insert(f.id, MovedTargetView::Reshape(g)),
                    next.insert(f.id),
                    out.push(ObjectOpView::EditGeometry { id: f.id, geometry: g }),
                ),
            }
        }
    }
}

/// The waves from `frontier`, at most `fuel` of them, until one rewrites
/// nothing.
pub open spec fn waves<O: OutlineDeriver>(
    deriver: O,
    objects: Seq<ObjectView>,
    frontier: Set<Seq<char>>,
    m: Map<Seq<char>, MovedTargetView>,
    rq: spec_fn(Transform3x3, Transform3x3, LocalPoint) -> (i64, i64),
    df: spec_fn(Seq<char>, Option<(i64, i64)>, Option<(i64, i64)>) -> Option<Seq<char>>,
    fuel: nat,
) -> Seq<ObjectOpView>
    decreases fuel,
{
    if fuel == 0 || frontier == Set::<Seq<char>>::empty() {
        seq![]
    } else {
        let (m2, next, out) = wave_upto(deriver, objects, frontier, m, rq, df, objects.len() as int);
        out + waves(deriver, objects, next, m2, rq, df, (fuel - 1) as nat)
    }
}

/// The follow edits of a committed batch, in chains: the first wave starts
/// from every target the batch moves or reshapes; each later wave from the
/// objects the wave before rewrote. Each wave can rewrite only objects not
/// changed before, so the scene's object count plus one waves run them all.
pub open spec fn chained_follow<O: OutlineDeriver>(
    deriver: O,
    objects: Seq<ObjectView>,
    ops: Seq<ObjectOpView>,
    rq: spec_fn(Transform3x3, Transform3x3, LocalPoint) -> (i64, i64),
    df: spec_fn(Seq<char>, Option<(i64, i64)>, Option<(i64, i64)>) -> Option<Seq<char>>,
) -> Seq<ObjectOpView> {
    let m = seeded_upto(objects, ops, ops.len() as int);
    waves(deriver, objects, m.dom(), m, rq, df, (objects.len() + 1) as nat)
}

// ---------------------------------------------------------------------------
// Executing it
// ---------------------------------------------------------------------------

/// The changed targets as keys and views.
pub open spec fn moved_list(v: Seq<(String, MovedTarget)>) -> Seq<(Seq<char>, MovedTargetView)> {
    v.map_values(|p: (String, MovedTarget)| (p.0@, p.1@))
}

impl MovedTarget {
    fn copy_of(&self) -> (r: Self)
        ensures
            r@ == self@,
    {
        match self {
            MovedTarget::Transform(t) => MovedTarget::Transform(*t),
            MovedTarget::Reshape(g) => MovedTarget::Reshape(g.copy_of()),
        }
    }
}

/// The first entry of `v` keyed `id`.
fn find_key(v: &Vec<(String, MovedTarget)>, id: &str) -> (r: Option<usize>)
    ensures
        match r {
            Some(i) => first_index(moved_list(v@), id@, i as int),
            None => forall|i: int| 0 <= i < v@.len() ==> moved_list(v@)[i].0 != id@,
        },
{
    let mut i: usize = 0;
    while i < v.len()
        invariant
            i <= v@.len(),
            forall|j: int| 0 <= j < i ==> moved_list(v@)[j].0 != id@,
        decreases v@.len() - i,
    {
        if str_eq(v[i].0.as_str(), id) {
            return Some(i);
        }
        i = i + 1;
    }
    None
}

/// What `v` holds for `id` (its first entry), with the map it stands for.
fn lookup_key(v: &Vec<(String, MovedTarget)>, id: &str) -> (r: Option<usize>)
    ensures
        match r {
            Some(i) => i < v@.len() && assoc(moved_list(v@)).contains_key(id@) && assoc(moved_list(v@))[id@]
                == v@[i as int].1@,
            None => !assoc(moved_list(v@)).contains_key(id@),
        },
{
    let r = find_key(v, id);
    proof {
        match r {
            Some(i) => {
                lemma_assoc_first(moved_list(v@), id@, i as int);
            },
            None => {
                lemma_assoc_absent(moved_list(v@), id@);
            },
        }
    }
    r
}

/// Where the node of `a` goes (see [`node_from`]).
fn node_at<O: OutlineDeriver, R: Fn(&Transform3x3, &Transform3x3, LocalPoint) -> (i64, i64)>(
    deriver: &O,
    scene: &ObjectScene,
    moved: &Vec<(String, MovedTarget)>,
    f: &Object,
    a: &Anchor,
    reproject: &R,
) -> (r: Option<(i64, i64)>)
    requires
        reprojects(*reproject),
    ensures
        r == node_from(*deriver, scene@.objects, assoc(moved_list(moved@)), f@, a@, reprojected_by(*reproject)),
{
    let i = match lookup_key(moved, a.target.as_str()) {
        Some(i) => i,
        None => {
            return None;
        },
    };
    let target = match scene.get(a.target.as_str()) {
        Some(t) => t,
        None => {
            return None;
        },
    };
    match &moved[i].1 {
        MovedTarget::Transform(t) => {
            let q = reproject(&f.transform, t, a.at);
            proof {
                lemma_reprojected_by(*reproject, f.transform, *t, a.at, q);
            }
            Some(q)
        },
        MovedTarget::Reshape(g) => {
            let mut h = g.copy_of();
            match h.ensure_parsed() {
                Err(_) => {
                    return None;
                },
                Ok(()) => {},
            }
            match deriver.derive_region(&h, 1) {
                Err(_) => None,
                Ok(region) => {
                    let at = deriver.reproject(&region, a.at);
                    let q = reproject(&f.transform, &target.transform, at);
                    proof {
                        lemma_reprojected_by(*reproject, f.transform, target.transform, at, q);
                    }
                    Some(q)
                },
            }
        },
    }
}

/// The follower's new geometry, when its path changes (see
/// [`geometry_by`]).
fn follow_geometry<
    O: OutlineDeriver,
    R: Fn(&Transform3x3, &Transform3x3, LocalPoint) -> (i64, i64),
    D: Fn(&str, Option<(i64, i64)>, Option<(i64, i64)>) -> Option<String>,
>(
    deriver: &O,
    scene: &ObjectScene,
    moved: &Vec<(String, MovedTarget)>,
    f: &Object,
    reproject: &R,
    deform: &D,
) -> (r: Option<Geometry>)
    requires
        reprojects(*reproject),
        deforms(*deform),
    ensures
        match r {
            Some(g) => geometry_by(
                *deriver,
                scene@.objects,
                assoc(moved_list(moved@)),
                f@,
                reprojected_by(*reproject),
                deformed_by(*deform),
            ) == Some(g@),
            None => geometry_by(
                *deriver,
                scene@.objects,
                assoc(moved_list(moved@)),
                f@,
                reprojected_by(*reproject),
                deformed_by(*deform),
            ) is None,
        },
{
    let ghost objs = scene@.objects;
    let ghost m = assoc(moved_list(moved@));
    let ghost rq = reprojected_by(*reproject);
    let ghost fv = f@;
    let base = f.geometry.path_string.as_str();
    let n = number_spans(base).len() / 2;
    let endpoint = n >= 2 && all_endpoints(&f.anchors, n - 1, Ghost(fv)) && is_open_path(base);
    let path: Option<String> = if endpoint {
        let mut s: Option<(i64, i64)> = None;
        let mut e: Option<(i64, i64)> = None;
        let mut k: usize = 0;
        while k < f.anchors.len()
            invariant
                k <= f.anchors@.len(),
                fv == f@,
                objs == scene@.objects,
                m == assoc(moved_list(moved@)),
                rq == reprojected_by(*reproject),
                reprojects(*reproject),
                (s, e) == ends_by(*deriver, objs, m, fv, rq, k as int),
            decreases f.anchors@.len() - k,
        {
            let a = &f.anchors[k];
            proof {
                assert(fv.anchors[k as int] == a@);
            }
            let nn = node_at(deriver, scene, moved, f, a, reproject);
            match nn {
                Some(q) => {
                    if a.node_index == 0 {
                        s = Some(q);
                    } else {
                        e = Some(q);
                    }
                },
                None => {},
            }
            k = k + 1;
        }
        if s.is_none() && e.is_none() {
            None
        } else {
            let r = deform(base, s, e);
            proof {
                lemma_deformed_by(*deform, base, s, e, r);
            }
            r
        }
    } else {
        let mut rewritten: Option<String> = None;
        let mut k: usize = 0;
        while k < f.anchors.len()
            invariant
                k <= f.anchors@.len(),
                fv == f@,
                base@ == fv.geometry.path_string,
                objs == scene@.objects,
                m == assoc(moved_list(moved@)),
                rq == reprojected_by(*reproject),
                reprojects(*reproject),
                opt_str(rewritten) == splice_by(*deriver, objs, m, fv, rq, k as int),
            decreases f.anchors@.len() - k,
        {
            let a = &f.anchors[k];
            proof {
                assert(fv.anchors[k as int] == a@);
            }
            let nn = node_at(deriver, scene, moved, f, a, reproject);
            match nn {
                Some(q) => {
                    let next = match &rewritten {
                        Some(d) => set_path_node(d.as_str(), a.node_index, q.0, q.1),
                        None => set_path_node(base, a.node_index, q.0, q.1),
                    };
                    match next {
                        Some(d) => {
                            rewritten = Some(d);
                        },
                        None => {},
                    }
                },
                None => {},
            }
            k = k + 1;
        }
        rewritten
    };
    proof {
        assert(opt_str(path) == path_by(*deriver, objs, m, fv, rq, deformed_by(*deform)));
    }
    match path {
        Some(d) => {
            if str_eq(d.as_str(), base) {
                None
            } else {
                let g = Geometry { path_string: d, fill_rule: f.geometry.fill_rule, subpaths: Vec::new() };
                proof {
                    assert(g@.subpaths =~= Seq::<SubPathView>::empty());
                }
                Some(g)
            }
        },
        None => None,
    }
}

/// The ids of a list, as a set.
pub open spec fn set_of(v: Seq<Seq<char>>) -> Set<Seq<char>> {
    Set::new(|x: Seq<char>| v.contains(x))
}

proof fn lemma_views_index(s: Seq<ObjectOp>)
    ensures
        op_views(s).len() == s.len(),
        forall|i: int| 0 <= i < s.len() ==> #[trigger] op_views(s)[i] == op_view(s[i]),
    decreases s.len(),
{
    if s.len() > 0 {
        lemma_views_index(s.drop_last());
        assert forall|i: int| 0 <= i < s.len() implies #[trigger] op_views(s)[i] == op_view(s[i]) by {
            if i < s.len() - 1 {
                assert(s.drop_last()[i] == s[i]);
            }
        }
    }
}

proof fn lemma_views_push(ops: Seq<ObjectOp>, x: ObjectOp)
    ensures
        op_views(ops.push(x)) == op_views(ops).push(op_view(x)),
{
    assert(ops.push(x).drop_last() =~= ops);
}

proof fn lemma_views_append(a: Seq<ObjectOp>, b: Seq<ObjectOp>)
    ensures
        op_views(a + b) == op_views(a) + op_views(b),
    decreases b.len(),
{
    if b.len() == 0 {
        assert(a + b =~= a);
        assert(op_views(a) + op_views(b) =~= op_views(a));
    } else {
        assert((a + b).drop_last() =~= a + b.drop_last());
        lemma_views_append(a, b.drop_last());
        assert(op_views(a) + op_views(b) =~= (op_views(a) + op_views(b.drop_last())).push(op_view(b.last())));
    }
}

/// Records `v` for `id`: replaces its first entry, or appends one.
fn put(moved: &mut Vec<(String, MovedTarget)>, id: &str, v: MovedTarget)
    ensures
        assoc(moved_list(final(moved)@)) == assoc(moved_list(old(moved)@)).insert(id@, v@),
{
    let ghost vv = v@;
    let ghost before = moved_list(moved@);
    match find_key(moved, id) {
        Some(i) => {
            moved.set(i, (id.to_owned(), v));
            proof {
                assert(moved_list(moved@) =~= before.update(i as int, (id@, vv)));
                lemma_assoc_update(before, id@, i as int, vv);
            }
        },
        None => {
            moved.push((id.to_owned(), v));
            proof {
                assert(moved_list(moved@) =~= before.push((id@, vv)));
                lemma_assoc_push(before, id@, vv);
            }
        },
    }
}

/// Some anchor of `f` targets an id of `frontier`.
fn waits_on_exec(f: &Object, frontier: &Vec<String>) -> (r: bool)
    ensures
        r == waits_on(f@, set_of(strs(frontier@))),
{
    let ghost fs = set_of(strs(frontier@));
    let mut k: usize = 0;
    while k < f.anchors.len()
        invariant
            k <= f.anchors@.len(),
            fs == set_of(strs(frontier@)),
            forall|j: int| 0 <= j < k ==> !fs.contains(#[trigger] f@.anchors[j].target),
        decreases f.anchors@.len() - k,
    {
        proof {
            assert(f@.anchors[k as int] == f.anchors@[k as int]@);
        }
        if contains_str(frontier, f.anchors[k].target.as_str()) {
            assert(fs.contains(f@.anchors[k as int].target));
            return true;
        }
        k = k + 1;
    }
    false
}

/// The follow edits of a committed batch `ops` that moves (`set-transform`)
/// or reshapes (`edit-geometry`) targets, in chains (see
/// [`chained_follow`]): a moved target's anchor points ride its new
/// transform (through `reproject`); a reshaped target's anchor points are
/// carried to the nearest point of its new outline (through `deriver`)
/// first. A follower that is rewritten is a reshaped target for the next
/// wave; an object the batch itself changes, or already rewritten, is not
/// rewritten again. Edits come out wave by wave, each in scene order.
pub fn geometry_follow_ops<
    O: OutlineDeriver,
    R: Fn(&Transform3x3, &Transform3x3, LocalPoint) -> (i64, i64),
    D: Fn(&str, Option<(i64, i64)>, Option<(i64, i64)>) -> Option<String>,
>(deriver: &O, scene: &ObjectScene, ops: &[ObjectOp], reproject: &R, deform: &D) -> (r: Vec<ObjectOp>)
    requires
        reprojects(*reproject),
        deforms(*deform),
    ensures
        op_views(r@) == chained_follow(
            *deriver,
            scene@.objects,
            op_views(ops@),
            reprojected_by(*reproject),
            deformed_by(*deform),
        ),
{
    let ghost objs = scene@.objects;
    let ghost opv = op_views(ops@);
    let ghost rq = reprojected_by(*reproject);
    let ghost df = deformed_by(*deform);
    proof {
        lemma_views_index(ops@);
    }
    let mut moved: Vec<(String, MovedTarget)> = Vec::new();
    let mut k: usize = 0;
    while k < ops.len()
        invariant
            k <= ops@.len(),
            objs == scene@.objects,
            opv == op_views(ops@),
            opv.len() == ops@.len(),
            forall|i: int| 0 <= i < ops@.len() ==> #[trigger] opv[i] == op_view(ops@[i]),
            assoc(moved_list(moved@)) == seeded_upto(objs, opv, k as int),
        decreases ops@.len() - k,
    {
        proof {
            assert(opv[k as int] == op_view(ops@[k as int]));
        }
        match &ops[k] {
            ObjectOp::SetTransform { id, transform } => {
                if scene.get(id.as_str()).is_some() {
                    put(&mut moved, id.as_str(), MovedTarget::Transform(*transform));
                }
            },
            ObjectOp::EditGeometry { id, geometry } => {
                if scene.get(id.as_str()).is_some() {
                    put(&mut moved, id.as_str(), MovedTarget::Reshape(geometry.copy_of()));
                }
            },
            _ => {},
        }
        k = k + 1;
    }
    let ghost m0 = assoc(moved_list(moved@));
    // The first frontier: every changed target.
    let mut frontier: Vec<String> = Vec::new();
    let mut i: usize = 0;
    while i < moved.len()
        invariant
            i <= moved@.len(),
            strs(frontier@) == moved_list(moved@).subrange(0, i as int).map_values(|p: (Seq<char>, MovedTargetView)| p.0),
        decreases moved@.len() - i,
    {
        let key = moved[i].0.clone();
        let ghost before = strs(frontier@);
        frontier.push(key);
        proof {
            assert(strs(frontier@) =~= before.push(key@));
            assert(moved_list(moved@).subrange(0, i + 1).map_values(|p: (Seq<char>, MovedTargetView)| p.0) =~= before.push(
                key@,
            ));
        }
        i = i + 1;
    }
    proof {
        let ml = moved_list(moved@);
        let keys = ml.subrange(0, ml.len() as int).map_values(|p: (Seq<char>, MovedTargetView)| p.0);
        assert forall|x: Seq<char>| set_of(strs(frontier@)).contains(x) <==> m0.dom().contains(x) by {
            crate::assoc::lemma_assoc_contains(ml, x);
            if keys.contains(x) {
                let w = choose|w: int| 0 <= w < keys.len() && keys[w] == x;
                assert(ml[w].0 == x);
            }
            if exists|j: int| 0 <= j < ml.len() && ml[j].0 == x {
                let j = choose|j: int| 0 <= j < ml.len() && ml[j].0 == x;
                assert(keys[j] == x);
            }
        }
        assert(set_of(strs(frontier@)) =~= m0.dom());
    }
    let n = scene.objects.len();
    let mut out: Vec<ObjectOp> = Vec::new();
    let mut remaining: usize = n;
    let mut extra = true;
    while frontier.len() > 0 && (remaining > 0 || extra)
        invariant
            objs == scene@.objects,
            n == objs.len(),
            rq == reprojected_by(*reproject),
            df == deformed_by(*deform),
            reprojects(*reproject),
            deforms(*deform),
            remaining <= n,
            opv == op_views(ops@),
            op_views(out@) + waves(
                *deriver,
                objs,
                set_of(strs(frontier@)),
                assoc(moved_list(moved@)),
                rq,
                df,
                (remaining + if extra { 1int } else { 0int }) as nat,
            ) == chained_follow(*deriver, objs, opv, rq, df),
        decreases remaining + if extra { 1int } else { 0int },
    {
        let ghost fuel = (remaining + if extra { 1int } else { 0int }) as nat;
        let ghost fs = set_of(strs(frontier@));
        let ghost m = assoc(moved_list(moved@));
        proof {
            assert(fs.contains(strs(frontier@)[0]));
            assert(fs != Set::<Seq<char>>::empty());
        }
        let mut next: Vec<String> = Vec::new();
        let mut wave: Vec<ObjectOp> = Vec::new();
        let mut j: usize = 0;
        while j < n
            invariant
                j <= n,
                objs == scene@.objects,
                n == objs.len(),
                rq == reprojected_by(*reproject),
                df == deformed_by(*deform),
                reprojects(*reproject),
                deforms(*deform),
                fs == set_of(strs(frontier@)),
                (assoc(moved_list(moved@)), set_of(strs(next@)), op_views(wave@)) == wave_upto(
                    *deriver,
                    objs,
                    fs,
                    m,
                    rq,
                    df,
                    j as int,
                ),
            decreases n - j,
        {
            let f = &scene.objects[j];
            proof {
                assert(objs[j as int] == f@);
            }
            let ghost mm = assoc(moved_list(moved@));
            let ghost nx = set_of(strs(next@));
            let ghost wv = op_views(wave@);
            let seen = lookup_key(&moved, f.id.as_str()).is_some();
            if !seen && f.anchors.len() > 0 && waits_on_exec(f, &frontier) {
                proof {
                    assert(f@.anchors.len() == f.anchors@.len());
                }
                match follow_geometry(deriver, scene, &moved, f, reproject, deform) {
                    Some(g) => {
                        let ghost gv = g@;
                        let key = f.id.clone();
                        let ghost pre = moved_list(moved@);
                        moved.push((f.id.clone(), MovedTarget::Reshape(g.copy_of())));
                        proof {
                            crate::assoc::lemma_assoc_contains(pre, f@.id);
                            assert forall|q: int| 0 <= q < pre.len() implies pre[q].0 != f@.id by {
                                if pre[q].0 == f@.id {
                                    assert(exists|j: int| 0 <= j < pre.len() && pre[j].0 == f@.id);
                                }
                            }
                            assert(moved_list(moved@) =~= pre.push((f@.id, MovedTargetView::Reshape(gv))));
                            lemma_assoc_push(pre, f@.id, MovedTargetView::Reshape(gv));
                        }
                        let ghost nb = strs(next@);
                        next.push(key);
                        proof {
                            let nl = strs(next@);
                            assert(nl =~= nb.push(f@.id));
                            assert forall|x: Seq<char>| set_of(nl).contains(x) <==> nx.insert(f@.id).contains(x) by {
                                if nl.contains(x) {
                                    let w = choose|w: int| 0 <= w < nl.len() && nl[w] == x;
                                    if w < nb.len() {
                                        assert(nb[w] == x);
                                    }
                                }
                                if nb.contains(x) {
                                    let w = choose|w: int| 0 <= w < nb.len() && nb[w] == x;
                                    assert(nl[w] == x);
                                }
                                if x == f@.id {
                                    assert(nl[nb.len() as int] == x);
                                }
                            }
                            assert(set_of(strs(next@)) =~= nx.insert(f@.id));
                        }
                        let op = ObjectOp::EditGeometry { id: f.id.clone(), geometry: g };
                        proof {
                            lemma_views_push(wave@, op);
                        }
                        wave.push(op);
                    },
                    None => {},
                }
            } else {
                proof {
                    if !seen {
                        assert(f@.anchors.len() == f.anchors@.len());
                    }
                }
            }
            j = j + 1;
        }
        let ghost wv = wave@;
        let ghost ov = out@;
        proof {
            lemma_views_append(ov, wv);
        }
        let ghost m2 = assoc(moved_list(moved@));
        let ghost nxs = set_of(strs(next@));
        proof {
            assert(waves(*deriver, objs, fs, m, rq, df, fuel) == op_views(wv) + waves(
                *deriver,
                objs,
                nxs,
                m2,
                rq,
                df,
                (fuel - 1) as nat,
            ));
        }
        out.append(&mut wave);
        frontier = next;
        if remaining > 0 {
            remaining = remaining - 1;
        } else {
            extra = false;
        }
        proof {
            assert(op_views(out@) =~= op_views(ov) + op_views(wv));
            assert(op_views(ov) + (op_views(wv) + waves(*deriver, objs, nxs, m2, rq, df, (fuel - 1) as nat)) =~= op_views(
                out@,
            ) + waves(*deriver, objs, nxs, m2, rq, df, (fuel - 1) as nat));
        }
    }
    proof {
        let fs = set_of(strs(frontier@));
        if frontier@.len() == 0 {
            assert(fs =~= Set::<Seq<char>>::empty());
        }
        let fuel = (remaining + if extra { 1int } else { 0int }) as nat;
        assert(waves(*deriver, objs, fs, assoc(moved_list(moved@)), rq, df, fuel) == Seq::<ObjectOpView>::empty());
        assert(op_views(out@) + Seq::<ObjectOpView>::empty() =~= op_views(out@));
    }
    out
}


// ---------------------------------------------------------------------------
// What the chain edits
// ---------------------------------------------------------------------------

/// The object an op moves or reshapes, if it is one of those.
pub open spec fn changed_by(op: ObjectOpView) -> Option<Seq<char>> {
    match op {
        ObjectOpView::SetTransform { id, .. } => Some(id),
        ObjectOpView::EditGeometry { id, .. } => Some(id),
        _ => None,
    }
}

/// Every op of `out` edits the geometry of an object outside `m`, and no
/// two of them the same object.
pub open spec fn fresh_edits(out: Seq<ObjectOpView>, m: Map<Seq<char>, MovedTargetView>) -> bool {
    &&& forall|i: int|
        0 <= i < out.len() ==> (#[trigger] out[i]) is EditGeometry && !m.contains_key(out[i]->EditGeometry_id)
    &&& forall|i: int, j: int|
        0 <= i < j < out.len() ==> (#[trigger] out[i])->EditGeometry_id != (#[trigger] out[j])->EditGeometry_id
}

proof fn lemma_seeded_keeps(objects: Seq<ObjectView>, ops: Seq<ObjectOpView>, k: int, n: int)
    requires
        0 <= k < n <= ops.len(),
        changed_by(ops[k]) is Some,
        find_object(objects, changed_by(ops[k])->0) is Some,
    ensures
        seeded_upto(objects, ops, n).contains_key(changed_by(ops[k])->0),
    decreases n,
{
    if n - 1 > k {
        lemma_seeded_keeps(objects, ops, k, n - 1);
    }
}

proof fn lemma_wave_fresh<O: OutlineDeriver>(
    deriver: O,
    objects: Seq<ObjectView>,
    frontier: Set<Seq<char>>,
    m0: Map<Seq<char>, MovedTargetView>,
    rq: spec_fn(Transform3x3, Transform3x3, LocalPoint) -> (i64, i64),
    df: spec_fn(Seq<char>, Option<(i64, i64)>, Option<(i64, i64)>) -> Option<Seq<char>>,
    j: int,
)
    ensures
        ({
            let (m, next, out) = wave_upto(deriver, objects, frontier, m0, rq, df, j);
            &&& fresh_edits(out, m0)
            &&& forall|id: Seq<char>| m0.contains_key(id) ==> #[trigger] m.contains_key(id)
            &&& forall|i: int| 0 <= i < out.len() ==> m.contains_key((#[trigger] out[i])->EditGeometry_id)
        }),
    decreases j,
{
    if j > 0 {
        lemma_wave_fresh(deriver, objects, frontier, m0, rq, df, j - 1);
        let (m, next, out) = wave_upto(deriver, objects, frontier, m0, rq, df, j - 1);
        let f = objects[j - 1];
        if !(m.contains_key(f.id) || f.anchors.len() == 0 || !waits_on(f, frontier)) {
            match geometry_by(deriver, objects, m, f, rq, df) {
                None => {},
                Some(g) => {
                    let out2 = out.push(ObjectOpView::EditGeometry { id: f.id, geometry: g });
                    assert forall|i: int, k: int| 0 <= i < k < out2.len() implies (#[trigger] out2[i])->EditGeometry_id
                        != (#[trigger] out2[k])->EditGeometry_id by {
                        if k == out.len() {
                            assert(m.contains_key(out[i]->EditGeometry_id));
                        } else {
                            assert(out2[i] == out[i] && out2[k] == out[k]);
                        }
                    }
                },
            }
        }
    }
}

proof fn lemma_waves_fresh<O: OutlineDeriver>(
    deriver: O,
    objects: Seq<ObjectView>,
    frontier: Set<Seq<char>>,
    m: Map<Seq<char>, MovedTargetView>,
    rq: spec_fn(Transform3x3, Transform3x3, LocalPoint) -> (i64, i64),
    df: spec_fn(Seq<char>, Option<(i64, i64)>, Option<(i64, i64)>) -> Option<Seq<char>>,
    fuel: nat,
)
    ensures
        fresh_edits(waves(deriver, objects, frontier, m, rq, df, fuel), m),
    decreases fuel,
{
    if !(fuel == 0 || frontier == Set::<Seq<char>>::empty()) {
        let (m2, next, out) = wave_upto(deriver, objects, frontier, m, rq, df, objects.len() as int);
        lemma_wave_fresh(deriver, objects, frontier, m, rq, df, objects.len() as int);
        let rest = waves(deriver, objects, next, m2, rq, df, (fuel - 1) as nat);
        lemma_waves_fresh(deriver, objects, next, m2, rq, df, (fuel - 1) as nat);
        let r = out + rest;
        assert forall|i: int| 0 <= i < r.len() implies (#[trigger] r[i]) is EditGeometry && !m.contains_key(
            r[i]->EditGeometry_id,
        ) by {
            if i >= out.len() {
                assert(r[i] == rest[i - out.len()]);
            }
        }
        assert forall|i: int, k: int| 0 <= i < k < r.len() implies (#[trigger] r[i])->EditGeometry_id
            != (#[trigger] r[k])->EditGeometry_id by {
            if k < out.len() {
                assert(r[i] == out[i] && r[k] == out[k]);
            } else if i >= out.len() {
                assert(r[i] == rest[i - out.len()] && r[k] == rest[k - out.len()]);
            } else {
                assert(r[i] == out[i] && r[k] == rest[k - out.len()]);
                assert(m2.contains_key(out[i]->EditGeometry_id));
            }
        }
    }
}

/// The chained follow of a batch only rewrites geometry, rewrites each
/// object at most once (so a cycle of bindings ends), and never rewrites an
/// object of the scene that the batch itself moves or reshapes.
pub proof fn lemma_chained_follow_edits_once<O: OutlineDeriver>(
    deriver: O,
    objects: Seq<ObjectView>,
    ops: Seq<ObjectOpView>,
    rq: spec_fn(Transform3x3, Transform3x3, LocalPoint) -> (i64, i64),
    df: spec_fn(Seq<char>, Option<(i64, i64)>, Option<(i64, i64)>) -> Option<Seq<char>>,
)
    ensures
        ({
            let r = chained_follow(deriver, objects, ops, rq, df);
            &&& forall|i: int| 0 <= i < r.len() ==> (#[trigger] r[i]) is EditGeometry
            &&& forall|i: int, j: int|
                0 <= i < j < r.len() ==> (#[trigger] r[i])->EditGeometry_id != (#[trigger] r[j])->EditGeometry_id
            &&& forall|i: int, k: int|
                0 <= i < r.len() && 0 <= k < ops.len() && changed_by(#[trigger] ops[k]) is Some && find_object(
                    objects,
                    changed_by(ops[k])->0,
                ) is Some ==> (#[trigger] r[i])->EditGeometry_id != changed_by(ops[k])->0
        }),
{
    let m = seeded_upto(objects, ops, ops.len() as int);
    lemma_waves_fresh(deriver, objects, m.dom(), m, rq, df, (objects.len() + 1) as nat);
    let r = chained_follow(deriver, objects, ops, rq, df);
    assert forall|i: int, k: int|
        0 <= i < r.len() && 0 <= k < ops.len() && changed_by(#[trigger] ops[k]) is Some && find_object(
            objects,
            changed_by(ops[k])->0,
        ) is Some implies (#[trigger] r[i])->EditGeometry_id != changed_by(ops[k])->0 by {
        lemma_seeded_keeps(objects, ops, k, ops.len() as int);
    }
}

/// The ids of the scene's objects.
pub open spec fn object_ids(objects: Seq<ObjectView>) -> Set<Seq<char>> {
    objects.map_values(|o: ObjectView| o.id).to_set()
}

/// How many of the scene's objects `m` holds as changed.
pub open spec fn changed_count(objects: Seq<ObjectView>, m: Map<Seq<char>, MovedTargetView>) -> nat {
    m.dom().intersect(object_ids(objects)).len()
}

proof fn lemma_wave_grows<O: OutlineDeriver>(
    deriver: O,
    objects: Seq<ObjectView>,
    frontier: Set<Seq<char>>,
    m0: Map<Seq<char>, MovedTargetView>,
    rq: spec_fn(Transform3x3, Transform3x3, LocalPoint) -> (i64, i64),
    df: spec_fn(Seq<char>, Option<(i64, i64)>, Option<(i64, i64)>) -> Option<Seq<char>>,
    j: int,
)
    requires
        0 <= j <= objects.len(),
    ensures
        ({
            let (m, next, out) = wave_upto(deriver, objects, frontier, m0, rq, df, j);
            &&& m.dom() == m0.dom().union(next)
            &&& forall|id: Seq<char>| #[trigger] next.contains(id) ==> !m0.contains_key(id) && object_ids(
                objects,
            ).contains(id)
        }),
    decreases j,
{
    if j > 0 {
        lemma_wave_grows(deriver, objects, frontier, m0, rq, df, j - 1);
        let (m, next, out) = wave_upto(deriver, objects, frontier, m0, rq, df, j - 1);
        let f = objects[j - 1];
        if !(m.contains_key(f.id) || f.anchors.len() == 0 || !waits_on(f, frontier)) {
            match geometry_by(deriver, objects, m, f, rq, df) {
                None => {},
                Some(g) => {
                    assert(objects.map_values(|o: ObjectView| o.id)[j - 1] == f.id);
                    assert(object_ids(objects).contains(f.id));
                    assert(m.insert(f.id, MovedTargetView::Reshape(g)).dom() =~= m0.dom().union(next.insert(f.id)));
                },
            }
        } else {
            assert(m.dom() =~= m0.dom().union(next));
        }
    } else {
        assert(m0.dom() =~= m0.dom().union(Set::<Seq<char>>::empty()));
    }
}

proof fn lemma_waves_settle<O: OutlineDeriver>(
    deriver: O,
    objects: Seq<ObjectView>,
    frontier: Set<Seq<char>>,
    m: Map<Seq<char>, MovedTargetView>,
    rq: spec_fn(Transform3x3, Transform3x3, LocalPoint) -> (i64, i64),
    df: spec_fn(Seq<char>, Option<(i64, i64)>, Option<(i64, i64)>) -> Option<Seq<char>>,
    fuel: nat,
    extra: nat,
)
    requires
        fuel + changed_count(objects, m) >= object_ids(objects).len() + 1,
    ensures
        waves(deriver, objects, frontier, m, rq, df, fuel) == waves(deriver, objects, frontier, m, rq, df, fuel + extra),
    decreases fuel,
{
    let ids = object_ids(objects);
    broadcast use vstd::seq_lib::seq_to_set_is_finite;
    assert(ids.finite());
    assert(m.dom().intersect(ids).subset_of(ids));
    vstd::set_lib::lemma_len_subset(m.dom().intersect(ids), ids);
    if frontier != Set::<Seq<char>>::empty() {
        assert(fuel >= 1);
        let (m2, next, out) = wave_upto(deriver, objects, frontier, m, rq, df, objects.len() as int);
        lemma_wave_grows(deriver, objects, frontier, m, rq, df, objects.len() as int);
        assert(waves(deriver, objects, frontier, m, rq, df, fuel) == out + waves(
            deriver,
            objects,
            next,
            m2,
            rq,
            df,
            (fuel - 1) as nat,
        ));
        assert(waves(deriver, objects, frontier, m, rq, df, fuel + extra) == out + waves(
            deriver,
            objects,
            next,
            m2,
            rq,
            df,
            (fuel + extra - 1) as nat,
        ));
        if next == Set::<Seq<char>>::empty() {
            assert(waves(deriver, objects, next, m2, rq, df, (fuel - 1) as nat) =~= seq![]);
            assert(waves(deriver, objects, next, m2, rq, df, (fuel + extra - 1) as nat) =~= seq![]);
        } else {
            let a = m.dom().intersect(ids);
            assert(next.subset_of(ids));
            vstd::set_lib::lemma_len_subset(next, ids);
            assert(m2.dom().intersect(ids) =~= a + next);
            assert(a.disjoint(next));
            vstd::set_lib::lemma_set_disjoint_lens(a, next);
            vstd::set_lib::lemma_set_empty_equivalency_len(next);
            assert(next.len() >= 1);
            lemma_waves_settle(deriver, objects, next, m2, rq, df, (fuel - 1) as nat, extra);
            assert((fuel + extra - 1) as nat == ((fuel - 1) as nat + extra) as nat);
        }
    }
}

/// The chained follow has settled: running any number of waves beyond the
/// scene's object count plus one gives the same edits, since each wave that
/// goes on rewrites an object no wave rewrote before.
pub proof fn lemma_chained_follow_settles<O: OutlineDeriver>(
    deriver: O,
    objects: Seq<ObjectView>,
    ops: Seq<ObjectOpView>,
    rq: spec_fn(Transform3x3, Transform3x3, LocalPoint) -> (i64, i64),
    df: spec_fn(Seq<char>, Option<(i64, i64)>, Option<(i64, i64)>) -> Option<Seq<char>>,
    extra: nat,
)
    ensures
        ({
            let m = seeded_upto(objects, ops, ops.len() as int);
            chained_follow(deriver, objects, ops, rq, df) == waves(
                deriver,
                objects,
                m.dom(),
                m,
                rq,
                df,
                (objects.len() + 1 + extra) as nat,
            )
        }),
{
    let m = seeded_upto(objects, ops, ops.len() as int);
    objects.map_values(|o: ObjectView| o.id).lemma_cardinality_of_set();
    lemma_waves_settle(deriver, objects, m.dom(), m, rq, df, (objects.len() + 1) as nat, extra);
}

} // verus!
