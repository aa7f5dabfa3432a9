//! Anchor endpoint resolution and the connection graph.
//!
//! A connector is an object whose path nodes carry [`Anchor`]s onto other
//! objects' derived regions. An anchor stores `at`, a local point on the
//! target's outline; the rendered endpoint is derived by re-projecting `at`
//! onto the target's current region, so it tracks the target.

use vstd::prelude::*;

use crate::object::binding::region::OutlineDeriver;
use crate::object::model::{find_object, Anchor, LocalPoint, Object, ObjectId, ObjectScene, ObjectSceneView, ObjectView};
use crate::text::{contains_str, str_eq, strs};

verus! {

/// Curve-flattening tolerance for region derivation: the finest bucket, so
/// endpoints land on the true outline regardless of zoom.
pub const FLATNESS: i32 = 1;

/// The derived endpoint for one anchor of `anchored`: `anchor.at` re-projected
/// onto `target`'s derived region; `None` when no region can be derived.
pub fn resolve_endpoint<D: OutlineDeriver>(deriver: &D, anchored: &Object, anchor: &Anchor, target: &Object) -> (r: Option<LocalPoint>)
    ensures
        r is Some <==> deriver.region_of(target@.geometry, FLATNESS) is Ok,
{
    match deriver.derive_region(&target.geometry, FLATNESS) {
        Ok(region) => Some(deriver.reproject(&region, anchor.at)),
        Err(_) => None,
    }
}

/// The indices, in order, of the first `k` anchors of `o` whose target is an
/// object of `s` with a region `d` derives.
pub open spec fn resolvable_upto<D: OutlineDeriver>(d: D, s: ObjectSceneView, o: ObjectView, k: int) -> Seq<int>
    decreases k,
{
    if k <= 0 {
        seq![]
    } else {
        resolvable_upto(d, s, o, k - 1) + match find_object(s.objects, o.anchors[k - 1].target) {
            Some(t) => if d.region_of(t.geometry, FLATNESS) is Ok {
                seq![k - 1]
            } else {
                seq![]
            },
            None => seq![],
        }
    }
}

/// Every endpoint of `object_id`'s anchors against the current target
/// regions, as `(anchor index, endpoint)` pairs in anchor order. Anchors whose
/// target is missing, or whose region cannot be derived, are skipped.
pub fn reproject_object_anchors<D: OutlineDeriver>(deriver: &D, scene: &ObjectScene, object_id: &str) -> (r: Vec<(usize, LocalPoint)>)
    ensures
        match find_object(scene@.objects, object_id@) {
            None => r@.len() == 0,
            Some(o) => r@.map_values(|e: (usize, LocalPoint)| e.0 as int) == resolvable_upto(
                *deriver,
                scene@,
                o,
                o.anchors.len() as int,
            ),
        },
{
    let mut out: Vec<(usize, LocalPoint)> = Vec::new();
    let object = match scene.get(object_id) {
        Some(o) => o,
        None => return out,
    };
    let mut idx: usize = 0;
    while idx < object.anchors.len()
        invariant
            idx <= object.anchors@.len(),
            find_object(scene@.objects, object_id@) == Some(object@),
            out@.map_values(|e: (usize, LocalPoint)| e.0 as int) == resolvable_upto(
                *deriver,
                scene@,
                object@,
                idx as int,
            ),
        decreases object.anchors@.len() - idx,
    {
        let anchor = &object.anchors[idx];
        let ghost before = out@;
        proof {
            assert(object@.anchors[idx as int] == anchor@);
        }
        match scene.get(anchor.target.as_str()) {
            Some(target) => {
                match resolve_endpoint(deriver, object, anchor, target) {
                    Some(p) => {
                        out.push((idx, p));
                        proof {
                            assert(out@.map_values(|e: (usize, LocalPoint)| e.0 as int) =~= before.map_values(
                                |e: (usize, LocalPoint)| e.0 as int,
                            ) + seq![idx as int]);
                        }
                    },
                    None => {
                        proof {
                            assert(out@.map_values(|e: (usize, LocalPoint)| e.0 as int) =~= before.map_values(
                                |e: (usize, LocalPoint)| e.0 as int,
                            ) + Seq::<int>::empty());
                        }
                    },
                }
            },
            None => {
                proof {
                    assert(out@.map_values(|e: (usize, LocalPoint)| e.0 as int) =~= before.map_values(
                        |e: (usize, LocalPoint)| e.0 as int,
                    ) + Seq::<int>::empty());
                }
            },
        }
        idx = idx + 1;
    }
    out
}

/// The distinct anchor targets among the first `k` anchors of `o`, in
/// first-seen order, leaving out `o` itself.
pub open spec fn targets_upto(o: ObjectView, k: int) -> Seq<Seq<char>>
    decreases k,
{
    if k <= 0 {
        seq![]
    } else {
        let t = targets_upto(o, k - 1);
        let a = o.anchors[k - 1].target;
        if a == o.id || t.contains(a) {
            t
        } else {
            t.push(a)
        }
    }
}

pub open spec fn distinct_targets(o: ObjectView) -> Seq<Seq<char>> {
    targets_upto(o, o.anchors.len() as int)
}

/// The pairs `(ts[i], ts[j])` for `j > i`.
pub open spec fn pairs_from(ts: Seq<Seq<char>>, i: int) -> Seq<(Seq<char>, Seq<char>)> {
    Seq::new((ts.len() - i - 1) as nat, |k: int| (ts[i], ts[i + 1 + k]))
}

/// Every unordered pair of the first `n` targets, by first index then second.
pub open spec fn pairs_upto(ts: Seq<Seq<char>>, n: int) -> Seq<(Seq<char>, Seq<char>)>
    decreases n,
{
    if n <= 0 {
        seq![]
    } else {
        pairs_upto(ts, n - 1) + pairs_from(ts, n - 1)
    }
}

/// The connection-graph edges one object contributes: nothing without
/// targets; `(object, target)` for a single target; every pair of distinct
/// targets otherwise.
pub open spec fn object_edges(o: ObjectView) -> Seq<(Seq<char>, Seq<char>)> {
    let ts = distinct_targets(o);
    if ts.len() == 0 {
        seq![]
    } else if ts.len() == 1 {
        seq![(o.id, ts[0])]
    } else {
        pairs_upto(ts, ts.len() as int)
    }
}

/// The edges of the first `n` objects, in scene order.
pub open spec fn edges_upto(objects: Seq<ObjectView>, n: int) -> Seq<(Seq<char>, Seq<char>)>
    decreases n,
{
    if n <= 0 {
        seq![]
    } else {
        edges_upto(objects, n - 1) + object_edges(objects[n - 1])
    }
}

pub open spec fn connections(s: ObjectSceneView) -> Seq<(Seq<char>, Seq<char>)> {
    edges_upto(s.objects, s.objects.len() as int)
}

pub open spec fn pair_views(v: Seq<(String, String)>) -> Seq<(Seq<char>, Seq<char>)> {
    v.map_values(|p: (String, String)| (p.0@, p.1@))
}

fn distinct_targets_of(object: &Object) -> (r: Vec<ObjectId>)
    ensures
        strs(r@) == distinct_targets(object@),
{
    let mut targets: Vec<ObjectId> = Vec::new();
    let mut k: usize = 0;
    while k < object.anchors.len()
        invariant
            k <= object.anchors@.len(),
            strs(targets@) == targets_upto(object@, k as int),
        decreases object.anchors@.len() - k,
    {
        let a = &object.anchors[k].target;
        proof {
            assert(object@.anchors[k as int].target == a@);
        }
        if !str_eq(a.as_str(), object.id.as_str()) && !contains_str(&targets, a.as_str()) {
            let ghost before = strs(targets@);
            targets.push(a.clone());
            proof {
                assert(strs(targets@) =~= before.push(a@));
            }
        }
        k = k + 1;
    }
    targets
}

/// The edges of the connection graph, objects in scene order: an object with
/// two or more distinct anchor targets contributes every pair of them (in
/// first-seen order), one with a single target contributes `(object,
/// target)`. Duplicate targets collapse and self-targets are dropped.
pub fn connection_graph(scene: &ObjectScene) -> (r: Vec<(ObjectId, ObjectId)>)
    ensures
        pair_views(r@) == connections(scene@),
{
    let mut edges: Vec<(ObjectId, ObjectId)> = Vec::new();
    let mut n: usize = 0;
    while n < scene.objects.len()
        invariant
            n <= scene.objects@.len(),
            pair_views(edges@) == edges_upto(scene@.objects, n as int),
        decreases scene.objects@.len() - n,
    {
        let object = &scene.objects[n];
        proof {
            assert(scene@.objects[n as int] == object@);
        }
        let targets = distinct_targets_of(object);
        let ghost ts = strs(targets@);
        let ghost base = pair_views(edges@);
        if targets.len() == 1 {
            edges.push((object.id.clone(), targets[0].clone()));
            proof {
                assert(pair_views(edges@) =~= base + seq![(object@.id, ts[0])]);
            }
        } else if targets.len() >= 2 {
            let mut i: usize = 0;
            while i < targets.len()
                invariant
                    i <= targets@.len(),
                    ts == strs(targets@),
                    pair_views(edges@) == base + pairs_upto(ts, i as int),
                decreases targets@.len() - i,
            {
                let ghost mid = pair_views(edges@);
                let mut j: usize = i + 1;
                while j < targets.len()
                    invariant
                        i < targets@.len(),
                        i + 1 <= j <= targets@.len(),
                        ts == strs(targets@),
                        pair_views(edges@) == mid + pairs_from(ts, i as int).subrange(0, j - i - 1),
                    decreases targets@.len() - j,
                {
                    let ghost before = pair_views(edges@);
                    edges.push((targets[i].clone(), targets[j].clone()));
                    proof {
                        assert(pairs_from(ts, i as int).subrange(0, j - i) =~= pairs_from(ts, i as int).subrange(
                            0,
                            j - i - 1,
                        ).push((ts[i as int], ts[j as int])));
                        assert(pair_views(edges@) =~= before.push((ts[i as int], ts[j as int])));
                    }
                    j = j + 1;
                }
                proof {
                    assert(pairs_from(ts, i as int).subrange(0, j - i - 1) =~= pairs_from(ts, i as int));
                    assert(base + pairs_upto(ts, i + 1) =~= base + pairs_upto(ts, i as int) + pairs_from(ts, i as int));
                }
                i = i + 1;
            }
        } else {
            proof {
                assert(object_edges(object@) =~= Seq::<(Seq<char>, Seq<char>)>::empty());
                assert(base + object_edges(object@) =~= base);
            }
        }
        n = n + 1;
    }
    edges
}

/// The other end of `e` when it is incident to `target` (and is not `target`).
pub open spec fn other_end(e: (Seq<char>, Seq<char>), target: Seq<char>) -> Option<Seq<char>> {
    if e.0 == target {
        Some(e.1)
    } else if e.1 == target {
        Some(e.0)
    } else {
        None
    }
}

/// The neighbours among the first `n` edges, each once, in first-seen order.
pub open spec fn neighbours_upto(edges: Seq<(Seq<char>, Seq<char>)>, target: Seq<char>, n: int) -> Seq<Seq<char>>
    decreases n,
{
    if n <= 0 {
        seq![]
    } else {
        let t = neighbours_upto(edges, target, n - 1);
        match other_end(edges[n - 1], target) {
            Some(o) => if o != target && !t.contains(o) {
                t.push(o)
            } else {
                t
            },
            None => t,
        }
    }
}

/// Neighbours of `target_id` in the connection graph: every object on the
/// other end of an edge incident to it, deduplicated, in first-seen order.
pub fn neighbors(scene: &ObjectScene, target_id: &str) -> (r: Vec<ObjectId>)
    ensures
        strs(r@) == neighbours_upto(connections(scene@), target_id@, connections(scene@).len() as int),
{
    let graph = connection_graph(scene);
    let ghost es = pair_views(graph@);
    let mut out: Vec<ObjectId> = Vec::new();
    let mut k: usize = 0;
    while k < graph.len()
        invariant
            k <= graph@.len(),
            es == pair_views(graph@),
            strs(out@) == neighbours_upto(es, target_id@, k as int),
        decreases graph@.len() - k,
    {
        let (a, b) = (&graph[k].0, &graph[k].1);
        proof {
            assert(es[k as int] == (a@, b@));
        }
        let other: Option<&String> = if str_eq(a.as_str(), target_id) {
            Some(b)
        } else if str_eq(b.as_str(), target_id) {
            Some(a)
        } else {
            None
        };
        match other {
            Some(o) => {
                if !str_eq(o.as_str(), target_id) && !contains_str(&out, o.as_str()) {
                    let ghost before = strs(out@);
                    out.push(o.clone());
                    proof {
                        assert(strs(out@) =~= before.push(o@));
                    }
                }
            },
            None => {},
        }
        k = k + 1;
    }
    out
}

} // verus!
