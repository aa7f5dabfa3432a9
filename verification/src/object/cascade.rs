//! The move cascade: which objects a drag moves, in what order, and the
//! edits it commits.
//!
//! A drag commits one world-space delta for the dragged object(s). Children
//! hold world-absolute transforms, so every descendant of a moved object
//! moves by the same delta. The moved ids and their order come from the
//! SameDelta closure of the binding graph
//! ([`BindingGraph::propagation_closure`]): one root's whole subtree,
//! parent before child, before the next root, each id once. Each moved
//! object then gets the op its caller routes it to (composing the delta onto
//! its transform, or a chord deform of an open path, or nothing), and the
//! followers anchored to what moved follow in [`move_ops`].

use vstd::prelude::*;

use crate::graph::keep;
use crate::object::authoring::edit::{MoveRoots, MoveRootsView};
use crate::object::anchor_follow::{anchor_follow_ops, deformed_by, deforms, follow_ops, reprojected_by, reprojects};
use crate::object::binding::move_together::{
    anchor_edges, lemma_same_delta_order_by_edges, out_edges_of, same_delta_order, BindingGraph, BindingNode, EdgeView,
    PropKind,
};
use crate::object::model::{
    copy_opt_str, find_object, opt_str, AnchorView, LocalPoint, Object, ObjectScene, ObjectView, Transform3x3,
};
use crate::object::op::{op_view, op_views, ObjectOp, ObjectOpView};
use crate::text::strs;

verus! {

/// The anchor targets of an object, in anchor order.
pub open spec fn anchor_targets(o: ObjectView) -> Seq<Seq<char>> {
    o.anchors.map_values(|a: AnchorView| a.target)
}

/// The binding edges out of `id` that the objects give, in scene order: each
/// object's SameDelta edge from its parent, then a Reproject edge for each of
/// its anchors onto `id`.
pub open spec fn scene_edges(objects: Seq<ObjectView>, id: Seq<char>) -> Seq<EdgeView>
    decreases objects.len(),
{
    if objects.len() == 0 {
        seq![]
    } else {
        let o = objects.last();
        scene_edges(objects.drop_last(), id) + (if o.parent == Some(id) {
            seq![(o.id, PropKind::SameDelta)]
        } else {
            seq![]
        }) + anchor_edges(o.id, anchor_targets(o), id)
    }
}

/// `g` is the binding graph of the objects.
pub open spec fn graph_of(g: BindingGraph, objects: Seq<ObjectView>) -> bool {
    forall|id: Seq<char>| #[trigger] g.out(id) == scene_edges(objects, id)
}

/// `n` holds the binding inputs of `o`.
pub open spec fn node_of(n: BindingNode, o: ObjectView) -> bool {
    &&& n.id@ == o.id
    &&& opt_str(n.parent) == o.parent
    &&& strs(n.anchor_targets@) == anchor_targets(o)
}

proof fn lemma_nodes_edges(nodes: Seq<BindingNode>, objects: Seq<ObjectView>, id: Seq<char>)
    requires
        nodes.len() == objects.len(),
        forall|i: int| 0 <= i < nodes.len() ==> node_of(#[trigger] nodes[i], objects[i]),
    ensures
        out_edges_of(nodes, id) == scene_edges(objects, id),
    decreases nodes.len(),
{
    if nodes.len() > 0 {
        let n = nodes.len() - 1;
        assert(node_of(nodes[n], objects[n]));
        lemma_nodes_edges(nodes.drop_last(), objects.drop_last(), id);
        match nodes.last().parent {
            Some(p) => {},
            None => {},
        }
    }
}

/// The binding inputs of the scene's objects, in scene order.
pub fn binding_nodes(scene: &ObjectScene) -> (r: Vec<BindingNode>)
    ensures
        r@.len() == scene@.objects.len(),
        forall|i: int| 0 <= i < r@.len() ==> node_of(#[trigger] r@[i], scene@.objects[i]),
{
    let mut r: Vec<BindingNode> = Vec::new();
    let mut i: usize = 0;
    while i < scene.objects.len()
        invariant
            i <= scene.objects.len(),
            r@.len() == i,
            forall|k: int| 0 <= k < i ==> node_of(#[trigger] r@[k], scene@.objects[k]),
        decreases scene.objects.len() - i,
    {
        let o = &scene.objects[i];
        let mut targets: Vec<String> = Vec::new();
        let mut k: usize = 0;
        while k < o.anchors.len()
            invariant
                k <= o.anchors.len(),
                o == scene.objects[i as int],
                strs(targets@) == anchor_targets(o@).subrange(0, k as int),
            decreases o.anchors.len() - k,
        {
            let t = o.anchors[k].target.clone();
            proof {
                crate::text::lemma_strs_push(targets@, t);
            }
            targets.push(t);
            k = k + 1;
            assert(anchor_targets(o@).subrange(0, k as int) =~= anchor_targets(o@).subrange(0, k - 1).push(
                o@.anchors[k - 1].target,
            ));
        }
        assert(anchor_targets(o@).subrange(0, k as int) =~= anchor_targets(o@));
        r.push(BindingNode { id: o.id.clone(), parent: copy_opt_str(&o.parent), anchor_targets: targets });
        i = i + 1;
    }
    r
}

/// The view of an optional op.
pub open spec fn opt_op(r: Option<ObjectOp>) -> Option<ObjectOpView> {
    match r {
        Some(op) => Some(op_view(op)),
        None => None,
    }
}

/// `route` is defined on every object and moved set, and gives one op (or
/// none) for each, by their views.
pub open spec fn routes<M: Fn(&Object, &Vec<String>) -> Option<ObjectOp>>(route: M) -> bool {
    &&& forall|o: &Object, m: &Vec<String>| #[trigger] route.requires((o, m))
    &&& forall|o1: &Object, o2: &Object, m1: &Vec<String>, m2: &Vec<String>, r1: Option<ObjectOp>, r2: Option<ObjectOp>|
        o1@ == o2@ && strs(m1@) == strs(m2@) && #[trigger] route.ensures((o1, m1), r1) && #[trigger] route.ensures(
            (o2, m2),
            r2,
        ) ==> opt_op(r1) == opt_op(r2)
}

/// The op `route` gives a moved object, with the ids of every object the
/// move carries.
pub open spec fn routed_by<M: Fn(&Object, &Vec<String>) -> Option<ObjectOp>>(route: M) -> spec_fn(
    ObjectView,
    Seq<Seq<char>>,
) -> Option<ObjectOpView> {
    |o: ObjectView, m: Seq<Seq<char>>|
        opt_op(
            (choose|x: &Object, v: &Vec<String>, r: Option<ObjectOp>|
                x@ == o && strs(v@) == m && #[trigger] route.ensures((x, v), r)).2,
        )
}

proof fn lemma_routed_by<M: Fn(&Object, &Vec<String>) -> Option<ObjectOp>>(
    route: M,
    o: &Object,
    m: &Vec<String>,
    r: Option<ObjectOp>,
)
    requires
        routes(route),
        route.ensures((o, m), r),
    ensures
        (routed_by(route))(o@, strs(m@)) == opt_op(r),
{
    let c = choose|x: &Object, v: &Vec<String>, q: Option<ObjectOp>|
        x@ == o@ && strs(v@) == strs(m@) && #[trigger] route.ensures((x, v), q);
    assert(route.ensures((c.0, c.1), c.2));
}

/// The ops the moved ids `ids` get, in order: for each id that names an
/// object, the op `routed` gives it (with the whole moved set `moved`), if
/// any.
pub open spec fn member_ops(
    objects: Seq<ObjectView>,
    ids: Seq<Seq<char>>,
    moved: Seq<Seq<char>>,
    routed: spec_fn(ObjectView, Seq<Seq<char>>) -> Option<ObjectOpView>,
) -> Seq<ObjectOpView>
    decreases ids.len(),
{
    if ids.len() == 0 {
        seq![]
    } else {
        let rest = member_ops(objects, ids.drop_last(), moved, routed);
        match find_object(objects, ids.last()) {
            Some(o) => match routed(o, moved) {
                Some(op) => rest.push(op),
                None => rest,
            },
            None => rest,
        }
    }
}

/// The roots that name an object of the scene, in order.
pub open spec fn live_roots(objects: Seq<ObjectView>, roots: Seq<Seq<char>>) -> Seq<Seq<char>> {
    keep(roots, |id: Seq<char>| find_object(objects, id) is Some)
}

/// The cascade of a move of `roots` over binding graph `g`: the moved ids are
/// the SameDelta closure of the live roots, and each gets its routed op.
pub open spec fn cascade(
    objects: Seq<ObjectView>,
    g: BindingGraph,
    roots: Seq<Seq<char>>,
    routed: spec_fn(ObjectView, Seq<Seq<char>>) -> Option<ObjectOpView>,
) -> Seq<ObjectOpView> {
    let sd = same_delta_order(g, live_roots(objects, roots));
    member_ops(objects, sd, sd, routed)
}

proof fn lemma_views_push(ops: Seq<ObjectOp>, x: ObjectOp)
    ensures
        op_views(ops.push(x)) == op_views(ops).push(op_view(x)),
{
    assert(ops.push(x).drop_last() =~= ops);
}

pub(crate) proof fn lemma_views_append(a: Seq<ObjectOp>, b: Seq<ObjectOp>)
    ensures
        op_views(a + b) == op_views(a) + op_views(b),
    decreases b.len(),
{
    if b.len() == 0 {
        assert(a + b =~= a);
        assert(op_views(a) + op_views(b) =~= op_views(a));
    } else {
        assert((a + b).drop_last() =~= a + b.drop_last());
        lemma_views_append(a, b.drop_last());
        assert(op_views(a) + op_views(b) =~= (op_views(a) + op_views(b.drop_last())).push(op_view(b.last())));
    }
}

/// The ids of `ids` that name an object of the scene, in order.
fn live_ids(scene: &ObjectScene, ids: &[String]) -> (r: Vec<String>)
    ensures
        strs(r@) == live_roots(scene@.objects, strs(ids@)),
{
    let mut r: Vec<String> = Vec::new();
    let mut i: usize = 0;
    while i < ids.len()
        invariant
            i <= ids.len(),
            strs(r@) == live_roots(scene@.objects, strs(ids@).subrange(0, i as int)),
        decreases ids.len() - i,
    {
        let ghost before = strs(ids@).subrange(0, i as int);
        assert(strs(ids@).subrange(0, i + 1).drop_last() =~= before);
        assert(strs(ids@).subrange(0, i + 1).last() == ids@[i as int]@);
        let key = ids[i].as_str();
        let got = scene.get(key);
        assert(key@ == ids@[i as int]@);
        assert(got is Some <==> find_object(scene@.objects, ids@[i as int]@) is Some);
        let found = got.is_some();

        if found {
            let t = ids[i].clone();
            proof {
                crate::text::lemma_strs_push(r@, t);
            }
            r.push(t);
            assert(live_roots(scene@.objects, strs(ids@).subrange(0, i + 1)) == live_roots(scene@.objects, before).push(
                ids@[i as int]@,
            ));
        } else {
            assert(live_roots(scene@.objects, strs(ids@).subrange(0, i + 1)) == live_roots(scene@.objects, before));
        }
        i = i + 1;
    }
    assert(strs(ids@).subrange(0, ids@.len() as int) =~= strs(ids@));
    r
}

/// The routed ops of the SameDelta closure of `live`.
fn cascade_same_delta_ops<M: Fn(&Object, &Vec<String>) -> Option<ObjectOp>>(
    scene: &ObjectScene,
    live: &Vec<String>,
    route: &M,
) -> (r: Vec<ObjectOp>)
    requires
        routes(*route),
    ensures
        op_views(r@) == ({
            let sd = same_delta_order(scene_graph(scene@.objects), strs(live@));
            member_ops(scene@.objects, sd, sd, routed_by(*route))
        }),
{
    let nodes = binding_nodes(scene);
    let graph = BindingGraph::build(&nodes);
    proof {
        assert forall|id: Seq<char>| #[trigger] graph.out(id) == scene_edges(scene@.objects, id) by {
            lemma_nodes_edges(nodes@, scene@.objects, id);
        }
    }
    let (sd, _reproject) = graph.propagation_closure(live.as_slice());
    let ghost moved = strs(sd@);
    let mut ops: Vec<ObjectOp> = Vec::new();
    let mut i: usize = 0;
    while i < sd.len()
        invariant
            i <= sd.len(),
            moved == strs(sd@),
            routes(*route),
            op_views(ops@) == member_ops(scene@.objects, moved.subrange(0, i as int), moved, routed_by(*route)),
        decreases sd.len() - i,
    {
        assert(moved.subrange(0, i + 1).drop_last() =~= moved.subrange(0, i as int));
        assert(moved.subrange(0, i + 1).last() == sd@[i as int]@);
        match scene.get(sd[i].as_str()) {
            Some(o) => {
                let routed = route(o, &sd);
                proof {
                    lemma_routed_by(*route, o, &sd, routed);
                }
                match routed {
                    Some(op) => {
                        proof {
                            lemma_views_push(ops@, op);
                        }
                        ops.push(op);
                    },
                    None => {},
                }
            },
            None => {},
        }
        i = i + 1;
    }
    assert(moved.subrange(0, sd@.len() as int) =~= moved);
    assert(moved == same_delta_order(graph, strs(live@)));
    proof {
        lemma_scene_graph(graph, scene@.objects, strs(live@));
    }
    ops
}

/// The ops a drag of `id` commits: the dragged object first, then every
/// descendant (parent before child, breadth-first in scene order), each with
/// the op `route` gives it. `[]` when `id` is not in the scene.
pub fn cascade_transform_ops<M: Fn(&Object, &Vec<String>) -> Option<ObjectOp>>(
    scene: &ObjectScene,
    id: &str,
    route: &M,
) -> (r: Vec<ObjectOp>)
    requires
        routes(*route),
    ensures
        op_views(r@) == cascade(scene@.objects, scene_graph(scene@.objects), seq![id@], routed_by(*route)),
{
    let roots = vec![id.to_owned()];
    proof {
        assert(strs(roots@) =~= seq![id@]);
    }
    let live = live_ids(scene, roots.as_slice());
    cascade_same_delta_ops(scene, &live, route)
}

/// The ops a drag of a multi-selection commits: each live member's whole
/// subtree before the next member's, every object once (at its first
/// place), each with the op `route` gives it. `[]` when no id is live.
pub fn cascade_multi_transform_ops<M: Fn(&Object, &Vec<String>) -> Option<ObjectOp>>(
    scene: &ObjectScene,
    ids: &[String],
    route: &M,
) -> (r: Vec<ObjectOp>)
    requires
        routes(*route),
    ensures
        op_views(r@) == cascade(scene@.objects, scene_graph(scene@.objects), strs(ids@), routed_by(*route)),
{
    let live = live_ids(scene, ids);
    cascade_same_delta_ops(scene, &live, route)
}

/// The ids a move of `roots` starts from.
pub open spec fn root_ids(roots: MoveRootsView) -> Seq<Seq<char>> {
    match roots {
        MoveRootsView::Single(id) => seq![id],
        MoveRootsView::Multi(ids) => ids,
    }
}

/// What a move commits: the cascade, followed by the edits of the followers
/// anchored to what it moved.
pub open spec fn moved_ops(
    objects: Seq<ObjectView>,
    g: BindingGraph,
    roots: Seq<Seq<char>>,
    routed: spec_fn(ObjectView, Seq<Seq<char>>) -> Option<ObjectOpView>,
    rq: spec_fn(Transform3x3, Transform3x3, LocalPoint) -> (i64, i64),
    df: spec_fn(Seq<char>, Option<(i64, i64)>, Option<(i64, i64)>) -> Option<Seq<char>>,
) -> Seq<ObjectOpView> {
    let c = cascade(objects, g, roots, routed);
    c + follow_ops(objects, c, rq, df)
}

/// The ops a move commits, as one batch: the cascade ops of `roots` (a
/// single dragged object or a multi-selection), followed by the follow edits
/// those moves trigger ([`anchor_follow_ops`]). Cascade ops come first: the
/// followers reproject through the moved targets' new transforms, which the
/// cascade ops carry.
pub fn move_ops<
    M: Fn(&Object, &Vec<String>) -> Option<ObjectOp>,
    R: Fn(&Transform3x3, &Transform3x3, LocalPoint) -> (i64, i64),
    D: Fn(&str, Option<(i64, i64)>, Option<(i64, i64)>) -> Option<String>,
>(scene: &ObjectScene, roots: &MoveRoots, route: &M, reproject: &R, deform: &D) -> (r: Vec<ObjectOp>)
    requires
        routes(*route),
        reprojects(*reproject),
        deforms(*deform),
    ensures
        op_views(r@) == moved_ops(
                scene@.objects,
                scene_graph(scene@.objects),
                root_ids(roots@),
                routed_by(*route),
                reprojected_by(*reproject),
                deformed_by(*deform),
            ),
{
    let mut ops = match roots {
        MoveRoots::Single(id) => cascade_transform_ops(scene, id.as_str(), route),
        MoveRoots::Multi(ids) => cascade_multi_transform_ops(scene, ids.as_slice(), route),
    };
    let ghost cascade_views = op_views(ops@);
    let follow = anchor_follow_ops(scene, ops.as_slice(), reproject, deform);
    let ghost first = ops@;
    let mut follow = follow;
    proof {
        lemma_views_append(first, follow@);
    }
    ops.append(&mut follow);
    ops
}

/// The binding graph of the objects (every such graph gives the same
/// SameDelta order: [`lemma_cascade_by_edges`]).
pub open spec fn scene_graph(objects: Seq<ObjectView>) -> BindingGraph {
    choose|g: BindingGraph| graph_of(g, objects)
}

/// `g`, a graph of the objects, orders the moved ids as [`scene_graph`] does.
proof fn lemma_scene_graph(g: BindingGraph, objects: Seq<ObjectView>, roots: Seq<Seq<char>>)
    requires
        graph_of(g, objects),
    ensures
        graph_of(scene_graph(objects), objects),
        same_delta_order(g, roots) == same_delta_order(scene_graph(objects), roots),
{
    let h = scene_graph(objects);
    assert(graph_of(h, objects));
    assert forall|id: Seq<char>| #[trigger] g.out(id) == h.out(id) by {
        assert(g.out(id) == scene_edges(objects, id));
        assert(h.out(id) == scene_edges(objects, id));
    }
    lemma_same_delta_order_by_edges(g, h, roots);
}

/// A move's cascade and its commit do not depend on which graph of the
/// objects orders them: any two binding graphs of the same objects give the
/// same ops.
pub proof fn lemma_cascade_by_edges(
    objects: Seq<ObjectView>,
    g1: BindingGraph,
    g2: BindingGraph,
    roots: Seq<Seq<char>>,
    routed: spec_fn(ObjectView, Seq<Seq<char>>) -> Option<ObjectOpView>,
    rq: spec_fn(Transform3x3, Transform3x3, LocalPoint) -> (i64, i64),
    df: spec_fn(Seq<char>, Option<(i64, i64)>, Option<(i64, i64)>) -> Option<Seq<char>>,
)
    requires
        graph_of(g1, objects),
        graph_of(g2, objects),
    ensures
        cascade(objects, g1, roots, routed) == cascade(objects, g2, roots, routed),
        moved_ops(objects, g1, roots, routed, rq, df) == moved_ops(objects, g2, roots, routed, rq, df),
{
    let live = live_roots(objects, roots);
    lemma_scene_graph(g1, objects, live);
    lemma_scene_graph(g2, objects, live);
}

} // verus!
