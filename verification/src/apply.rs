//! Applying edits to the placed scene: validation of render patches, the
//! edit each kind makes, and the commit every edit funnels through.
//!
//! Real-valued placement arithmetic (adding offsets, aligning, distributing,
//! framing) is supplied by the caller as a [`Geometry`]: the logic here decides
//! which entities move and where the results go, and the caller's functions
//! compute the numbers.

use vstd::prelude::*;

use crate::envelope::{local_envelope, synthesise_local_envelope, OperationEnvelope, OperationEnvelopeView};
use crate::graph::{keep, keep_where, lemma_keep_step, om_set_all, om_set_all_in, views, Keyed};
use crate::lww::clone_json;
use crate::model::{
    copy_all, copy_json_values, empty_scene_patch, opt_views, Bounds, EdgeType, NodeStatus, NodeType, ObjectMeta, Point,
    Scene, SceneComment, SceneCommentView, SceneEdge, SceneEdgeView, SceneGroup, SceneGroupView, SceneNode,
    SceneNodeView, ScenePatch, ScenePatchView, SceneSelection, SceneView, SelectionView, Size, Tag, TagView,
    TranslateGroup, TranslateGroupView,
};
use crate::op::{
    lemma_patch_views_index, patch_views, AlignMode, Axis, EditField, ExtendedRenderPatch, ExtendedRenderView, PatchView,
    RenderCard, RenderCardView, RenderGroup, RenderGroupView, RenderScenePatch, TargetKind,
};
use crate::text::{contains_str, copy_strings, lemma_strs_push, push_str, str_eq, strs};
use vstd::string::StrSliceExecFns;

verus! {

impl Keyed for SceneGroup {
    open spec fn key_of(v: SceneGroupView) -> Seq<char> {
        v.id
    }

    fn key(&self) -> (r: &String) {
        &self.id
    }

    fn duplicate(&self) -> (r: Self) {
        self.copy_of()
    }
}

impl Keyed for SceneNode {
    open spec fn key_of(v: SceneNodeView) -> Seq<char> {
        v.id
    }

    fn key(&self) -> (r: &String) {
        &self.id
    }

    fn duplicate(&self) -> (r: Self) {
        self.copy_of()
    }
}

impl Keyed for SceneEdge {
    open spec fn key_of(v: SceneEdgeView) -> Seq<char> {
        v.id
    }

    fn key(&self) -> (r: &String) {
        &self.id
    }

    fn duplicate(&self) -> (r: Self) {
        self.copy_of()
    }
}

/// Whether two metadata maps are equal by `serde_json::Map`'s `==`.
pub uninterp spec fn json_map_eq(a: ObjectMeta, b: ObjectMeta) -> bool;

/// `PartialEq::eq` on `serde_json::Map` (entry-wise equality); the result is
/// named, not stated.
#[verifier::external_body]
fn meta_eq(a: &ObjectMeta, b: &ObjectMeta) -> (r: bool)
    ensures
        r == json_map_eq(*a, *b),
{
    a == b
}

// ---------------------------------------------------------------------------
// Caller-supplied placement arithmetic
// ---------------------------------------------------------------------------

/// How a set of cards is to be placed.
#[derive(Clone, Copy, Debug, PartialEq, Eq, Structural)]
pub enum Arrangement {
    /// Align the cards' edges or centres along an axis.
    Align { axis: Axis, mode: AlignMode },
    /// Spread the cards evenly along an axis.
    Distribute { axis: Axis },
}

/// The placement arithmetic on `f64` bit patterns: `plus` sums two numbers;
/// `arrange` gives, for the (position, size) of each card, the new position of
/// each card by its index, in the order the cards are to be listed; `frame`
/// gives the bounds of a new group around cards.
pub struct Geometry<A, L, F> {
    pub plus: A,
    pub arrange: L,
    pub frame: F,
}

/// `plus` is defined everywhere and gives one result per pair of arguments.
pub open spec fn adds<A: Fn(u64, u64) -> u64>(plus: A) -> bool {
    &&& forall|a: u64, b: u64| #[trigger] plus.requires((a, b))
    &&& forall|a: u64, b: u64, r1: u64, r2: u64|
        #[trigger] plus.ensures((a, b), r1) && #[trigger] plus.ensures((a, b), r2) ==> r1 == r2
}

/// The sum `plus` gives.
pub open spec fn sum_by<A: Fn(u64, u64) -> u64>(plus: A) -> spec_fn(u64, u64) -> u64 {
    |a: u64, b: u64| choose|r: u64| plus.ensures((a, b), r)
}

proof fn lemma_sum_by<A: Fn(u64, u64) -> u64>(plus: A, a: u64, b: u64, r: u64)
    requires
        adds(plus),
        plus.ensures((a, b), r),
    ensures
        (sum_by(plus))(a, b) == r,
{
    let c = choose|c: u64| plus.ensures((a, b), c);
    assert(plus.ensures((a, b), c));
}

/// Adds two `f64` bit patterns with `plus`.
pub(crate) fn add_bits<A: Fn(u64, u64) -> u64>(plus: &A, a: u64, b: u64) -> (r: u64)
    requires
        adds(*plus),
    ensures
        r == (sum_by(*plus))(a, b),
{
    let r = plus(a, b);
    proof {
        lemma_sum_by(*plus, a, b, r);
    }
    r
}

// ---------------------------------------------------------------------------
// Commit
// ---------------------------------------------------------------------------

/// The items of an optional list; none when absent.
pub open spec fn opt_seq<A>(o: Option<Seq<A>>) -> Seq<A> {
    match o {
        Some(s) => s,
        None => seq![],
    }
}

/// The ids of groups, in order.
pub open spec fn group_ids_of(gs: Seq<SceneGroupView>) -> Seq<Seq<char>> {
    gs.map_values(|g: SceneGroupView| g.id)
}

/// The ids of cards, in order.
pub open spec fn node_ids_of(ns: Seq<SceneNodeView>) -> Seq<Seq<char>> {
    ns.map_values(|n: SceneNodeView| n.id)
}

/// A group moved by a translation, stamped `now`.
pub open spec fn moved_group(g: SceneGroupView, t: TranslateGroupView, now: Seq<char>, plus: spec_fn(u64, u64) -> u64) -> SceneGroupView {
    SceneGroupView {
        bounds: Bounds { x: plus(g.bounds.x, t.dx), y: plus(g.bounds.y, t.dy), ..g.bounds },
        updated_at: now,
        ..g
    }
}

/// A card moved by a translation, stamped `now`.
pub open spec fn moved_node(n: SceneNodeView, t: TranslateGroupView, now: Seq<char>, plus: spec_fn(u64, u64) -> u64) -> SceneNodeView {
    SceneNodeView {
        position: Point { x: plus(n.position.x, t.dx), y: plus(n.position.y, t.dy) },
        updated_at: Some(now),
        ..n
    }
}

/// One translation: when its group is present, the group and every card in
/// it move; otherwise nothing changes.
pub open spec fn translate_one(
    gs: Seq<SceneGroupView>,
    ns: Seq<SceneNodeView>,
    t: TranslateGroupView,
    now: Seq<char>,
    plus: spec_fn(u64, u64) -> u64,
) -> (Seq<SceneGroupView>, Seq<SceneNodeView>) {
    if group_ids_of(gs).contains(t.group_id) {
        (
            gs.map_values(|g: SceneGroupView| if g.id == t.group_id { moved_group(g, t, now, plus) } else { g }),
            ns.map_values(|n: SceneNodeView| if n.group_id == t.group_id { moved_node(n, t, now, plus) } else { n }),
        )
    } else {
        (gs, ns)
    }
}

/// The translations applied in turn.
pub open spec fn translate_all(
    gs: Seq<SceneGroupView>,
    ns: Seq<SceneNodeView>,
    ts: Seq<TranslateGroupView>,
    now: Seq<char>,
    plus: spec_fn(u64, u64) -> u64,
) -> (Seq<SceneGroupView>, Seq<SceneNodeView>)
    decreases ts.len(),
{
    if ts.len() == 0 {
        (gs, ns)
    } else {
        let (g2, n2) = translate_all(gs, ns, ts.drop_last(), now, plus);
        translate_one(g2, n2, ts.last(), now, plus)
    }
}

/// Groups whose id is not among `ids`.
pub open spec fn group_not_in(ids: Seq<Seq<char>>) -> spec_fn(SceneGroupView) -> bool {
    |g: SceneGroupView| !ids.contains(g.id)
}

/// Cards whose id is not among `ids`.
pub open spec fn node_not_in(ids: Seq<Seq<char>>) -> spec_fn(SceneNodeView) -> bool {
    |n: SceneNodeView| !ids.contains(n.id)
}

/// Edges whose id is not among `ids`.
pub open spec fn edge_not_in(ids: Seq<Seq<char>>) -> spec_fn(SceneEdgeView) -> bool {
    |e: SceneEdgeView| !ids.contains(e.id)
}

/// Cards whose group is among `gids`.
pub open spec fn node_in_groups(gids: Seq<Seq<char>>) -> spec_fn(SceneNodeView) -> bool {
    |n: SceneNodeView| gids.contains(n.group_id)
}

/// Edges whose group is among `gids` and whose ends are among `nids`.
pub open spec fn edge_live(gids: Seq<Seq<char>>, nids: Seq<Seq<char>>) -> spec_fn(SceneEdgeView) -> bool {
    |e: SceneEdgeView| gids.contains(e.group_id) && nids.contains(e.source) && nids.contains(e.target)
}

/// The groups after a commit's removals and upserts, before translation.
pub open spec fn upserted_groups(s: SceneView, p: ScenePatchView) -> Seq<SceneGroupView> {
    om_set_all::<SceneGroup>(
        om_set_all::<SceneGroup>(seq![], keep(s.groups, group_not_in(opt_seq(p.remove_group_ids)))),
        opt_seq(p.groups),
    )
}

/// The cards after a commit's removals and upserts, before translation.
pub open spec fn upserted_nodes(s: SceneView, p: ScenePatchView) -> Seq<SceneNodeView> {
    om_set_all::<SceneNode>(
        keep(om_set_all::<SceneNode>(seq![], s.nodes), node_not_in(opt_seq(p.remove_node_ids))),
        opt_seq(p.nodes),
    )
}

/// The edges after a commit's removals and upserts.
pub open spec fn upserted_edges(s: SceneView, p: ScenePatchView) -> Seq<SceneEdgeView> {
    om_set_all::<SceneEdge>(
        keep(om_set_all::<SceneEdge>(seq![], s.edges), edge_not_in(opt_seq(p.remove_edge_ids))),
        opt_seq(p.edges),
    )
}

/// The scene a commit of `p` yields. Groups: the surviving groups of the
/// scene (removals dropped, each id once at its first position), then the
/// patch's groups upserted (an existing id keeps its position and takes the
/// new value, a new id is appended). Cards: the scene's cards, removals
/// dropped, the patch's cards upserted. Then each translation moves its group
/// and the group's cards. Edges as cards. Finally cards whose group is gone,
/// and edges whose group or either end is gone, are dropped. The selection is
/// the patch's when it has one; the version is bumped and the scene stamped
/// `now`.
pub open spec fn committed(s: SceneView, p: ScenePatchView, now: Seq<char>, plus: spec_fn(u64, u64) -> u64) -> SceneView {
    let (gs, ns) = translate_all(upserted_groups(s, p), upserted_nodes(s, p), opt_seq(p.translate_groups), now, plus);
    let nodes = keep(ns, node_in_groups(group_ids_of(gs)));
    SceneView {
        scene_version: (s.scene_version + 1) as i64,
        groups: gs,
        nodes,
        edges: keep(upserted_edges(s, p), edge_live(group_ids_of(gs), node_ids_of(nodes))),
        selection: match p.selection {
            Some(sel) => sel,
            None => s.selection,
        },
        updated_at: now,
        ..s
    }
}

/// What applying an edit gives: the new scene, the bulk patch it committed,
/// the errors that refused it (none on success) and its envelope.
#[derive(Debug, PartialEq)]
pub struct AppliedRenderPatch {
    pub scene: Scene,
    pub app_patch: ScenePatch,
    pub errors: Vec<String>,
    pub envelope: OperationEnvelope,
}

pub struct AppliedView {
    pub scene: SceneView,
    pub app_patch: ScenePatchView,
    pub errors: Seq<Seq<char>>,
    pub envelope: OperationEnvelopeView,
}

impl View for AppliedRenderPatch {
    type V = AppliedView;

    open spec fn view(&self) -> AppliedView {
        AppliedView {
            scene: self.scene@,
            app_patch: self.app_patch@,
            errors: strs(self.errors@),
            envelope: self.envelope@,
        }
    }
}

/// A copy of the strings of an optional list; none when absent.
fn strings_or_empty(o: &Option<Vec<String>>) -> (r: Vec<String>)
    ensures
        strs(r@) == opt_seq(crate::model::opt_strs(*o)),
{
    match o {
        Some(v) => copy_strings(v),
        None => {
            let r: Vec<String> = Vec::new();
            proof {
                assert(strs(r@) =~= Seq::<Seq<char>>::empty());
            }
            r
        },
    }
}

/// The ids of groups, in order.
fn group_ids(gs: &Vec<SceneGroup>) -> (r: Vec<String>)
    ensures
        strs(r@) == group_ids_of(views(gs@)),
{
    let mut r: Vec<String> = Vec::new();
    let mut i: usize = 0;
    while i < gs.len()
        invariant
            i <= gs@.len(),
            strs(r@) == group_ids_of(views(gs@)).subrange(0, i as int),
        decreases gs@.len() - i,
    {
        let c = gs[i].id.clone();
        let ghost before = r@;
        r.push(c);
        proof {
            lemma_strs_push(before, c);
            assert(group_ids_of(views(gs@)).subrange(0, i + 1) =~= group_ids_of(views(gs@)).subrange(0, i as int).push(c@));
        }
        i = i + 1;
    }
    proof {
        assert(group_ids_of(views(gs@)).subrange(0, gs@.len() as int) =~= group_ids_of(views(gs@)));
    }
    r
}

/// The ids of cards, in order.
fn node_ids(ns: &Vec<SceneNode>) -> (r: Vec<String>)
    ensures
        strs(r@) == node_ids_of(views(ns@)),
{
    let mut r: Vec<String> = Vec::new();
    let mut i: usize = 0;
    while i < ns.len()
        invariant
            i <= ns@.len(),
            strs(r@) == node_ids_of(views(ns@)).subrange(0, i as int),
        decreases ns@.len() - i,
    {
        let c = ns[i].id.clone();
        let ghost before = r@;
        r.push(c);
        proof {
            lemma_strs_push(before, c);
            assert(node_ids_of(views(ns@)).subrange(0, i + 1) =~= node_ids_of(views(ns@)).subrange(0, i as int).push(c@));
        }
        i = i + 1;
    }
    proof {
        assert(node_ids_of(views(ns@)).subrange(0, ns@.len() as int) =~= node_ids_of(views(ns@)));
    }
    r
}

/// Moves, in place, the groups a translation names.
fn translate_groups_in<A: Fn(u64, u64) -> u64>(gs: &mut Vec<SceneGroup>, t: &TranslateGroup, now: &str, plus: &A)
    requires
        adds(*plus),
    ensures
        views(final(gs)@) == views(old(gs)@).map_values(
            |g: SceneGroupView| if g.id == t@.group_id { moved_group(g, t@, now@, sum_by(*plus)) } else { g },
        ),
{
    let ghost f = |g: SceneGroupView| if g.id == t@.group_id { moved_group(g, t@, now@, sum_by(*plus)) } else { g };
    let mut i: usize = 0;
    while i < gs.len()
        invariant
            i <= gs@.len(),
            gs@.len() == old(gs)@.len(),
            adds(*plus),
            f == (|g: SceneGroupView| if g.id == t@.group_id { moved_group(g, t@, now@, sum_by(*plus)) } else { g }),
            forall|j: int| 0 <= j < i ==> #[trigger] views(gs@)[j] == f(views(old(gs)@)[j]),
            forall|j: int| i <= j < gs@.len() ==> #[trigger] gs@[j] == old(gs)@[j],
        decreases gs@.len() - i,
    {
        let ghost before = gs@;
        proof {
            assert(views(old(gs)@)[i as int] == old(gs)@[i as int]@);
        }
        if str_eq(gs[i].id.as_str(), t.group_id.as_str()) {
            let x = add_bits(plus, gs[i].bounds.x, t.dx);
            let y = add_bits(plus, gs[i].bounds.y, t.dy);
            let mut g = gs[i].copy_of();
            g.bounds = Bounds { x, y, width: g.bounds.width, height: g.bounds.height };
            g.updated_at = now.to_owned();
            let ghost gv = g@;
            gs.set(i, g);
            proof {
                assert(views(gs@)[i as int] == gv);
                assert(f(views(old(gs)@)[i as int]) == gv);
                assert forall|j: int| 0 <= j < i implies #[trigger] views(gs@)[j] == f(views(old(gs)@)[j]) by {
                    assert(gs@[j] == before[j]);
                    assert(views(before)[j] == before[j]@);
                }
            }
        } else {
            proof {
                assert(views(gs@)[i as int] == gs@[i as int]@);
                assert(f(views(old(gs)@)[i as int]) == views(old(gs)@)[i as int]);
            }
        }
        i = i + 1;
    }
    proof {
        assert(views(gs@) =~= views(old(gs)@).map_values(f));
    }
}

/// Moves, in place, the cards of the group a translation names.
fn translate_nodes_in<A: Fn(u64, u64) -> u64>(ns: &mut Vec<SceneNode>, t: &TranslateGroup, now: &str, plus: &A)
    requires
        adds(*plus),
    ensures
        views(final(ns)@) == views(old(ns)@).map_values(
            |n: SceneNodeView| if n.group_id == t@.group_id { moved_node(n, t@, now@, sum_by(*plus)) } else { n },
        ),
{
    let ghost f = |n: SceneNodeView| if n.group_id == t@.group_id { moved_node(n, t@, now@, sum_by(*plus)) } else { n };
    let mut i: usize = 0;
    while i < ns.len()
        invariant
            i <= ns@.len(),
            ns@.len() == old(ns)@.len(),
            adds(*plus),
            f == (|n: SceneNodeView| if n.group_id == t@.group_id { moved_node(n, t@, now@, sum_by(*plus)) } else { n }),
            forall|j: int| 0 <= j < i ==> #[trigger] views(ns@)[j] == f(views(old(ns)@)[j]),
            forall|j: int| i <= j < ns@.len() ==> #[trigger] ns@[j] == old(ns)@[j],
        decreases ns@.len() - i,
    {
        let ghost before = ns@;
        proof {
            assert(views(old(ns)@)[i as int] == old(ns)@[i as int]@);
        }
        if str_eq(ns[i].group_id.as_str(), t.group_id.as_str()) {
            let x = add_bits(plus, ns[i].position.x, t.dx);
            let y = add_bits(plus, ns[i].position.y, t.dy);
            let mut n = ns[i].copy_of();
            n.position = Point { x, y };
            n.updated_at = Some(now.to_owned());
            let ghost nv = n@;
            ns.set(i, n);
            proof {
                assert(views(ns@)[i as int] == nv);
                assert(f(views(old(ns)@)[i as int]) == nv);
                assert forall|j: int| 0 <= j < i implies #[trigger] views(ns@)[j] == f(views(old(ns)@)[j]) by {
                    assert(ns@[j] == before[j]);
                    assert(views(before)[j] == before[j]@);
                }
            }
        } else {
            proof {
                assert(views(ns@)[i as int] == ns@[i as int]@);
                assert(f(views(old(ns)@)[i as int]) == views(old(ns)@)[i as int]);
            }
        }
        i = i + 1;
    }
    proof {
        assert(views(ns@) =~= views(old(ns)@).map_values(f));
    }
}


/// Commits a bulk patch to the scene (see [`committed`]).
fn commit_app_patch<A: Fn(u64, u64) -> u64>(
    scene: &Scene,
    patch: ScenePatch,
    now: &str,
    envelope: OperationEnvelope,
    plus: &A,
) -> (r: AppliedRenderPatch)
    requires
        adds(*plus),
        scene.scene_version < i64::MAX,
    ensures
        r@ == (AppliedView {
            scene: committed(scene@, patch@, now@, sum_by(*plus)),
            app_patch: patch@,
            errors: seq![],
            envelope: envelope@,
        }),
{
    // Groups: the survivors, each id once, then the patch's upserts.
    let rg = strings_or_empty(&patch.remove_group_ids);
    let not_removed_group = |g: &SceneGroup| -> (b: bool)
        ensures
            b == !strs(rg@).contains(g.id@),
        { !contains_str(&rg, g.id.as_str()) };
    let kept_groups = keep_where(copy_all(&scene.groups), Ghost(group_not_in(strs(rg@))), not_removed_group);
    let mut groups: Vec<SceneGroup> = Vec::new();
    proof {
        assert(views(groups@) =~= Seq::<SceneGroupView>::empty());
    }
    om_set_all_in(&mut groups, &kept_groups);
    match &patch.groups {
        Some(pg) => om_set_all_in(&mut groups, pg),
        None => {},
    }
    // Cards: all, each id once, removals dropped, then the patch's upserts.
    let mut all_nodes: Vec<SceneNode> = Vec::new();
    proof {
        assert(views(all_nodes@) =~= Seq::<SceneNodeView>::empty());
    }
    om_set_all_in(&mut all_nodes, &scene.nodes);
    let rn = strings_or_empty(&patch.remove_node_ids);
    let not_removed_node = |n: &SceneNode| -> (b: bool)
        ensures
            b == !strs(rn@).contains(n.id@),
        { !contains_str(&rn, n.id.as_str()) };
    let mut nodes = keep_where(all_nodes, Ghost(node_not_in(strs(rn@))), not_removed_node);
    match &patch.nodes {
        Some(pn) => om_set_all_in(&mut nodes, pn),
        None => {},
    }
    proof {
        assert(views(groups@) == upserted_groups(scene@, patch@));
        assert(views(nodes@) == upserted_nodes(scene@, patch@));
    }
    // Translations, in order.
    match &patch.translate_groups {
        Some(ts) => {
            let ghost g0 = views(groups@);
            let ghost n0 = views(nodes@);
            let mut k: usize = 0;
            proof {
                assert(views(ts@).subrange(0, 0) =~= Seq::<TranslateGroupView>::empty());
            }
            while k < ts.len()
                invariant
                    k <= ts@.len(),
                    adds(*plus),
                    (views(groups@), views(nodes@)) == translate_all(g0, n0, views(ts@).subrange(0, k as int), now@, sum_by(*plus)),
                decreases ts@.len() - k,
            {
                let gids = group_ids(&groups);
                if contains_str(&gids, ts[k].group_id.as_str()) {
                    translate_groups_in(&mut groups, &ts[k], now, plus);
                    translate_nodes_in(&mut nodes, &ts[k], now, plus);
                }
                proof {
                    let sub = views(ts@).subrange(0, k + 1);
                    assert(sub.drop_last() =~= views(ts@).subrange(0, k as int));
                    assert(sub.last() == ts@[k as int]@);
                }
                k = k + 1;
            }
            proof {
                assert(views(ts@).subrange(0, ts@.len() as int) =~= views(ts@));
            }
        },
        None => {},
    }
    let ghost groups_after = groups@;
    let ghost nodes_after = nodes@;
    // Edges: all, each id once, removals dropped, then the patch's upserts.
    let mut all_edges: Vec<SceneEdge> = Vec::new();
    proof {
        assert(views(all_edges@) =~= Seq::<SceneEdgeView>::empty());
    }
    om_set_all_in(&mut all_edges, &scene.edges);
    let re = strings_or_empty(&patch.remove_edge_ids);
    let not_removed_edge = |e: &SceneEdge| -> (b: bool)
        ensures
            b == !strs(re@).contains(e.id@),
        { !contains_str(&re, e.id.as_str()) };
    let mut edges = keep_where(all_edges, Ghost(edge_not_in(strs(re@))), not_removed_edge);
    match &patch.edges {
        Some(pe) => om_set_all_in(&mut edges, pe),
        None => {},
    }
    // Dangling cards and edges go.
    let gids = group_ids(&groups);
    let in_live_group = |n: &SceneNode| -> (b: bool)
        ensures
            b == strs(gids@).contains(n.group_id@),
        { contains_str(&gids, n.group_id.as_str()) };
    let live = keep_where(nodes, Ghost(node_in_groups(strs(gids@))), in_live_group);
    let nids = node_ids(&live);
    let attached = |e: &SceneEdge| -> (b: bool)
        ensures
            b == (strs(gids@).contains(e.group_id@) && strs(nids@).contains(e.source@) && strs(nids@).contains(
                e.target@,
            )),
        {
            contains_str(&gids, e.group_id.as_str()) && contains_str(&nids, e.source.as_str()) && contains_str(
                &nids,
                e.target.as_str(),
            )
        };
    let live_edges = keep_where(edges, Ghost(edge_live(strs(gids@), strs(nids@))), attached);
    let selection = match &patch.selection {
        Some(sel) => sel.copy_of(),
        None => scene.selection.copy_of(),
    };
    let next = Scene {
        version: scene.version,
        scene_version: scene.scene_version + 1,
        groups,
        nodes: live,
        edges: live_edges,
        tags: copy_all(&scene.tags),
        comments: copy_all(&scene.comments),
        artifacts: copy_json_values(&scene.artifacts),
        proposals: match &scene.proposals {
            Some(v) => Some(clone_json(v)),
            None => None,
        },
        selection,
        updated_at: now.to_owned(),
    };
    let errors: Vec<String> = Vec::new();
    proof {
        let tr = translate_all(
            upserted_groups(scene@, patch@),
            upserted_nodes(scene@, patch@),
            opt_seq(patch@.translate_groups),
            now@,
            sum_by(*plus),
        );
        assert(views(groups_after) == tr.0);
        assert(views(nodes_after) == tr.1);
        assert(views(live@) == keep(tr.1, node_in_groups(group_ids_of(tr.0))));
        assert(views(live_edges@) == keep(upserted_edges(scene@, patch@), edge_live(strs(gids@), strs(nids@))));
        assert(strs(errors@) =~= Seq::<Seq<char>>::empty());
        assert(next@.groups == tr.0);
    }
    AppliedRenderPatch { scene: next, app_patch: patch, errors, envelope }
}


// ---------------------------------------------------------------------------
// Validation
// ---------------------------------------------------------------------------

/// The ids of edges, in order.
pub open spec fn edge_ids_of(es: Seq<SceneEdgeView>) -> Seq<Seq<char>> {
    es.map_values(|e: SceneEdgeView| e.id)
}

/// The ids of tags, in order.
pub open spec fn tag_ids_of(ts: Seq<TagView>) -> Seq<Seq<char>> {
    ts.map_values(|t: TagView| t.id)
}

/// The `f64` with bit pattern `b` is at most zero: a zero of either sign, or
/// any negative value including negative infinity (a NaN compares false).
pub open spec fn at_most_zero(b: u64) -> bool {
    b == 0 || (0x8000_0000_0000_0000 <= b && b <= 0xfff0_0000_0000_0000)
}

/// A rectangle with a side that is not positive.
pub open spec fn degenerate(b: Bounds) -> bool {
    at_most_zero(b.width) || at_most_zero(b.height)
}

/// One message when `c` holds, none otherwise.
pub open spec fn msg_if(c: bool, m: Seq<char>) -> Seq<Seq<char>> {
    if c {
        seq![m]
    } else {
        seq![]
    }
}

/// `prefix` followed by each id found in neither `ka` nor `kb`, in order.
pub open spec fn unknown_among(ids: Seq<Seq<char>>, ka: Seq<Seq<char>>, kb: Seq<Seq<char>>, prefix: Seq<char>) -> Seq<
    Seq<char>,
>
    decreases ids.len(),
{
    if ids.len() == 0 {
        seq![]
    } else {
        unknown_among(ids.drop_last(), ka, kb, prefix) + msg_if(
            !ka.contains(ids.last()) && !kb.contains(ids.last()),
            prefix + ids.last(),
        )
    }
}

/// The first of `ids` that is not among `known`.
pub open spec fn first_unknown(ids: Seq<Seq<char>>, known: Seq<Seq<char>>) -> Option<Seq<char>>
    decreases ids.len(),
{
    if ids.len() == 0 {
        None
    } else if !known.contains(ids[0]) {
        Some(ids[0])
    } else {
        first_unknown(ids.drop_first(), known)
    }
}

/// What is wrong with selecting `sel` on scene `s`.
pub open spec fn selection_errors(s: SceneView, sel: SelectionView) -> Seq<Seq<char>> {
    match sel {
        SelectionView::Canvas => seq![],
        SelectionView::Group { id } => msg_if(!group_ids_of(s.groups).contains(id), "Unknown group selection id: "@ + id),
        SelectionView::Node { id } => msg_if(!node_ids_of(s.nodes).contains(id), "Unknown node selection id: "@ + id),
        SelectionView::Edge { id } => msg_if(!edge_ids_of(s.edges).contains(id), "Unknown edge selection id: "@ + id),
        SelectionView::Multi { ids } => match first_unknown(ids, node_ids_of(s.nodes)) {
            Some(u) => seq!["Unknown node selection id: "@ + u],
            None => seq![],
        },
    }
}

/// What is wrong with the entity a tag assignment targets.
pub open spec fn target_errors(s: SceneView, kind: TargetKind, id: Seq<char>) -> Seq<Seq<char>> {
    match kind {
        TargetKind::Frame => msg_if(!group_ids_of(s.groups).contains(id), "Unknown group id: "@ + id),
        TargetKind::Card => msg_if(!node_ids_of(s.nodes).contains(id), "Unknown node id: "@ + id),
        TargetKind::Edge => msg_if(!edge_ids_of(s.edges).contains(id), "Unknown edge id: "@ + id),
    }
}

/// What is wrong with the parent a grouping names.
pub open spec fn parent_errors(s: SceneView, parent: Option<Seq<char>>) -> Seq<Seq<char>> {
    match parent {
        Some(pg) => msg_if(!group_ids_of(s.groups).contains(pg), "Unknown parentGroupId: "@ + pg),
        None => seq![],
    }
}

/// What is wrong with applying `p` to scene `s`, in the order checked; empty
/// when it can be applied.
pub open spec fn patch_errors(s: SceneView, p: PatchView) -> Seq<Seq<char>> {
    let nk = node_ids_of(s.nodes);
    let gk = group_ids_of(s.groups);
    let ek = edge_ids_of(s.edges);
    let none: Seq<Seq<char>> = seq![];
    match p {
        PatchView::MoveCard { id, .. } => msg_if(!nk.contains(id), "Unknown node id: "@ + id),
        PatchView::SetCardZIndex { id, .. } => msg_if(!nk.contains(id), "Unknown node id: "@ + id),
        PatchView::EditCardText { id, .. } => msg_if(!nk.contains(id), "Unknown node id: "@ + id),
        PatchView::CreateGroup { group } => msg_if(gk.contains(group.id), "Duplicate group id: "@ + group.id) + msg_if(
            degenerate(group.bounds),
            "Group bounds must be positive"@,
        ),
        PatchView::DeleteGroup { id } => msg_if(!gk.contains(id), "Unknown group id: "@ + id),
        PatchView::MoveGroup { id, .. } => msg_if(!gk.contains(id), "Unknown group id: "@ + id),
        PatchView::CreateCard { card } => msg_if(nk.contains(card.id), "Duplicate node id: "@ + card.id) + msg_if(
            !gk.contains(card.group_id),
            "Unknown group id: "@ + card.group_id,
        ) + msg_if(degenerate(card.bounds), "Card bounds must be positive"@),
        PatchView::DeleteCard { id } => msg_if(!nk.contains(id), "Unknown node id: "@ + id),
        PatchView::CreateEdge { group_id, source, target, edge_id, .. } => msg_if(
            source == target,
            "Edge source and target must differ"@,
        ) + msg_if(!nk.contains(source), "Unknown source node id: "@ + source) + msg_if(
            !nk.contains(target),
            "Unknown target node id: "@ + target,
        ) + msg_if(!gk.contains(group_id), "Unknown group id: "@ + group_id) + msg_if(
            ek.contains(edge_id),
            "Duplicate edge id: "@ + edge_id,
        ),
        PatchView::DeleteEdge { id } => msg_if(!ek.contains(id), "Unknown edge id: "@ + id),
        PatchView::Select { selection } => selection_errors(s, selection),
        PatchView::ResizeCard { id, bounds } => msg_if(!nk.contains(id), "Unknown node id: "@ + id) + msg_if(
            degenerate(bounds),
            "resize-card bounds must be positive"@,
        ),
        PatchView::ResizeGroup { id, bounds } => msg_if(!gk.contains(id), "Unknown group id: "@ + id) + msg_if(
            degenerate(bounds),
            "resize-group bounds must be positive"@,
        ),
        PatchView::AlignCards { ids, .. } => msg_if(ids.len() < 2, "align-cards requires at least 2 ids"@)
            + unknown_among(ids, nk, none, "Unknown node id: "@),
        PatchView::DistributeCards { ids, .. } => msg_if(ids.len() < 3, "distribute-cards requires at least 3 ids"@)
            + unknown_among(ids, nk, none, "Unknown node id: "@),
        PatchView::DuplicateObjects { ids, .. } => msg_if(
            ids.len() == 0,
            "duplicate-objects requires at least 1 id"@,
        ) + unknown_among(ids, nk, gk, "Unknown id: "@),
        PatchView::Batch { ops } => msg_if(ops.len() == 0, "batch requires at least 1 op"@),
        PatchView::GroupObjects { ids, frame_id, parent_group_id, .. } => msg_if(
            ids.len() == 0,
            "group-objects requires at least 1 id"@,
        ) + msg_if(frame_id.len() == 0, "group-objects requires a frameId"@) + msg_if(
            gk.contains(frame_id),
            "Duplicate group id: "@ + frame_id,
        ) + unknown_among(ids, nk, gk, "Unknown id: "@) + parent_errors(s, parent_group_id),
        PatchView::Ungroup { id } => msg_if(!gk.contains(id), "Unknown group id: "@ + id),
        PatchView::SetObjectGroup { ids, frame_id } => msg_if(
            ids.len() == 0,
            "set-object-group requires at least 1 id"@,
        ) + msg_if(!gk.contains(frame_id), "Unknown group id: "@ + frame_id) + unknown_among(
            ids,
            nk,
            ek,
            "Unknown id: "@,
        ),
        PatchView::SetObjectTags { target_kind, id, tag_ids } => target_errors(s, target_kind, id) + unknown_among(
            tag_ids,
            tag_ids_of(s.tags),
            none,
            "Unknown tag id: "@,
        ),
        PatchView::CreateTag { tag } => msg_if(tag_ids_of(s.tags).contains(tag.id), "Duplicate tag id: "@ + tag.id),
    }
}

/// `prefix` followed by `id`.
fn message(prefix: &str, id: &str) -> (r: String)
    ensures
        r@ == prefix@ + id@,
{
    let mut m = prefix.to_owned();
    push_str(&mut m, id);
    m
}

/// Appends `m` to `errors` when `c` holds.
fn push_if(errors: &mut Vec<String>, c: bool, m: String)
    ensures
        strs(final(errors)@) == strs(old(errors)@) + msg_if(c, m@),
{
    if c {
        let ghost before = errors@;
        errors.push(m);
        proof {
            lemma_strs_push(before, m);
            assert(strs(before) + msg_if(c, m@) =~= strs(before).push(m@));
        }
    } else {
        proof {
            assert(strs(errors@) + msg_if(c, m@) =~= strs(errors@));
        }
    }
}

/// Appends `prefix` + id for each of `ids` found in neither `ka` nor `kb`.
fn push_unknown(errors: &mut Vec<String>, ids: &Vec<String>, ka: &Vec<String>, kb: &Vec<String>, prefix: &str)
    ensures
        strs(final(errors)@) == strs(old(errors)@) + unknown_among(strs(ids@), strs(ka@), strs(kb@), prefix@),
{
    let mut i: usize = 0;
    while i < ids.len()
        invariant
            i <= ids@.len(),
            strs(errors@) == strs(old(errors)@) + unknown_among(
                strs(ids@).subrange(0, i as int),
                strs(ka@),
                strs(kb@),
                prefix@,
            ),
        decreases ids@.len() - i,
    {
        let id = ids[i].as_str();
        let unknown = !contains_str(ka, id) && !contains_str(kb, id);
        let ghost before = strs(errors@);
        push_if(errors, unknown, message(prefix, id));
        proof {
            let sub = strs(ids@).subrange(0, i + 1);
            assert(sub.drop_last() =~= strs(ids@).subrange(0, i as int));
            assert(sub.last() == id@);
            assert(strs(old(errors)@) + unknown_among(sub, strs(ka@), strs(kb@), prefix@) =~= before + msg_if(
                unknown,
                prefix@ + id@,
            ));
        }
        i = i + 1;
    }
    proof {
        assert(strs(ids@).subrange(0, ids@.len() as int) =~= strs(ids@));
    }
}

/// The ids of edges, in order.
fn edge_ids(es: &Vec<SceneEdge>) -> (r: Vec<String>)
    ensures
        strs(r@) == edge_ids_of(views(es@)),
{
    let mut r: Vec<String> = Vec::new();
    let mut i: usize = 0;
    while i < es.len()
        invariant
            i <= es@.len(),
            strs(r@) == edge_ids_of(views(es@)).subrange(0, i as int),
        decreases es@.len() - i,
    {
        let c = es[i].id.clone();
        let ghost before = r@;
        r.push(c);
        proof {
            lemma_strs_push(before, c);
            assert(edge_ids_of(views(es@)).subrange(0, i + 1) =~= edge_ids_of(views(es@)).subrange(0, i as int).push(c@));
        }
        i = i + 1;
    }
    proof {
        assert(edge_ids_of(views(es@)).subrange(0, es@.len() as int) =~= edge_ids_of(views(es@)));
    }
    r
}

/// The ids of tags, in order.
fn tag_ids(ts: &Vec<Tag>) -> (r: Vec<String>)
    ensures
        strs(r@) == tag_ids_of(views(ts@)),
{
    let mut r: Vec<String> = Vec::new();
    let mut i: usize = 0;
    while i < ts.len()
        invariant
            i <= ts@.len(),
            strs(r@) == tag_ids_of(views(ts@)).subrange(0, i as int),
        decreases ts@.len() - i,
    {
        let c = ts[i].id.clone();
        let ghost before = r@;
        r.push(c);
        proof {
            lemma_strs_push(before, c);
            assert(tag_ids_of(views(ts@)).subrange(0, i + 1) =~= tag_ids_of(views(ts@)).subrange(0, i as int).push(c@));
        }
        i = i + 1;
    }
    proof {
        assert(tag_ids_of(views(ts@)).subrange(0, ts@.len() as int) =~= tag_ids_of(views(ts@)));
    }
    r
}

/// Whether the `f64` with bit pattern `b` is at most zero.
fn bits_at_most_zero(b: u64) -> (r: bool)
    ensures
        r == at_most_zero(b),
{
    b == 0 || (0x8000_0000_0000_0000u64 <= b && b <= 0xfff0_0000_0000_0000u64)
}

/// Whether a rectangle has a side that is not positive.
fn is_degenerate(b: &Bounds) -> (r: bool)
    ensures
        r == degenerate(*b),
{
    bits_at_most_zero(b.width) || bits_at_most_zero(b.height)
}

/// The first of `ids` that is not among `known`.
fn find_unknown<'a>(ids: &'a Vec<String>, known: &Vec<String>) -> (r: Option<&'a String>)
    ensures
        match r {
            Some(u) => first_unknown(strs(ids@), strs(known@)) == Some(u@),
            None => first_unknown(strs(ids@), strs(known@)) is None,
        },
{
    let mut i: usize = 0;
    proof {
        assert(strs(ids@).subrange(0, ids@.len() as int) =~= strs(ids@));
    }
    while i < ids.len()
        invariant
            i <= ids@.len(),
            first_unknown(strs(ids@), strs(known@)) == first_unknown(strs(ids@).subrange(i as int, ids@.len() as int), strs(known@)),
        decreases ids@.len() - i,
    {
        let ghost rest = strs(ids@).subrange(i as int, ids@.len() as int);
        proof {
            assert(rest[0] == ids@[i as int]@);
            assert(rest.drop_first() =~= strs(ids@).subrange(i + 1, ids@.len() as int));
        }
        if !contains_str(known, ids[i].as_str()) {
            return Some(&ids[i]);
        }
        i = i + 1;
    }
    proof {
        assert(strs(ids@).subrange(ids@.len() as int, ids@.len() as int) =~= Seq::<Seq<char>>::empty());
    }
    None
}

/// What is wrong with selecting `selection` on `scene` (see [`selection_errors`]).
fn validate_scene_selection(scene: &Scene, selection: &SceneSelection) -> (r: Vec<String>)
    ensures
        strs(r@) == selection_errors(scene@, selection@),
{
    let mut errors: Vec<String> = Vec::new();
    proof {
        assert(strs(errors@) =~= Seq::<Seq<char>>::empty());
    }
    match selection {
        SceneSelection::Canvas => {},
        SceneSelection::Group { id } => {
            let known = group_ids(&scene.groups);
            push_if(&mut errors, !contains_str(&known, id.as_str()), message("Unknown group selection id: ", id.as_str()));
        },
        SceneSelection::Node { id } => {
            let known = node_ids(&scene.nodes);
            push_if(&mut errors, !contains_str(&known, id.as_str()), message("Unknown node selection id: ", id.as_str()));
        },
        SceneSelection::Edge { id } => {
            let known = edge_ids(&scene.edges);
            push_if(&mut errors, !contains_str(&known, id.as_str()), message("Unknown edge selection id: ", id.as_str()));
        },
        SceneSelection::Multi { ids } => {
            let known = node_ids(&scene.nodes);
            match find_unknown(ids, &known) {
                Some(u) => {
                    push_if(&mut errors, true, message("Unknown node selection id: ", u.as_str()));
                },
                None => {},
            }
        },
    }
    proof {
        assert(strs(errors@) =~= selection_errors(scene@, selection@));
    }
    errors
}


/// What is wrong with applying `patch` to `scene` (see [`patch_errors`]).
fn validate_render_patch_for_shape_scene(scene: &Scene, patch: &RenderScenePatch) -> (r: Vec<String>)
    ensures
        strs(r@) == patch_errors(scene@, patch@),
{
    let nk = node_ids(&scene.nodes);
    let gk = group_ids(&scene.groups);
    let ek = edge_ids(&scene.edges);
    let none: Vec<String> = Vec::new();
    let mut errors: Vec<String> = Vec::new();
    proof {
        assert(strs(errors@) =~= Seq::<Seq<char>>::empty());
        assert(strs(none@) =~= Seq::<Seq<char>>::empty());
    }
    match patch {
        RenderScenePatch::MoveCard { id, .. } | RenderScenePatch::SetCardZIndex { id, .. } | RenderScenePatch::EditCardText {
            id,
            ..
        } => {
            push_if(&mut errors, !contains_str(&nk, id.as_str()), message("Unknown node id: ", id.as_str()));
        },
        RenderScenePatch::CreateGroup { group } => {
            push_if(&mut errors, contains_str(&gk, group.id.as_str()), message("Duplicate group id: ", group.id.as_str()));
            push_if(&mut errors, is_degenerate(&group.bounds), "Group bounds must be positive".to_owned());
        },
        RenderScenePatch::DeleteGroup { id } | RenderScenePatch::MoveGroup { id, .. } | RenderScenePatch::Ungroup {
            id,
        } => {
            push_if(&mut errors, !contains_str(&gk, id.as_str()), message("Unknown group id: ", id.as_str()));
        },
        RenderScenePatch::CreateCard { card } => {
            push_if(&mut errors, contains_str(&nk, card.id.as_str()), message("Duplicate node id: ", card.id.as_str()));
            push_if(
                &mut errors,
                !contains_str(&gk, card.group_id.as_str()),
                message("Unknown group id: ", card.group_id.as_str()),
            );
            push_if(&mut errors, is_degenerate(&card.bounds), "Card bounds must be positive".to_owned());
        },
        RenderScenePatch::DeleteCard { id } => {
            push_if(&mut errors, !contains_str(&nk, id.as_str()), message("Unknown node id: ", id.as_str()));
        },
        RenderScenePatch::CreateEdge { group_id, source, target, edge_id, .. } => {
            push_if(
                &mut errors,
                str_eq(source.as_str(), target.as_str()),
                "Edge source and target must differ".to_owned(),
            );
            push_if(&mut errors, !contains_str(&nk, source.as_str()), message("Unknown source node id: ", source.as_str()));
            push_if(&mut errors, !contains_str(&nk, target.as_str()), message("Unknown target node id: ", target.as_str()));
            push_if(&mut errors, !contains_str(&gk, group_id.as_str()), message("Unknown group id: ", group_id.as_str()));
            push_if(&mut errors, contains_str(&ek, edge_id.as_str()), message("Duplicate edge id: ", edge_id.as_str()));
        },
        RenderScenePatch::DeleteEdge { id } => {
            push_if(&mut errors, !contains_str(&ek, id.as_str()), message("Unknown edge id: ", id.as_str()));
        },
        RenderScenePatch::Select { selection } => {
            errors = validate_scene_selection(scene, selection);
        },
        RenderScenePatch::ResizeCard { id, bounds } => {
            push_if(&mut errors, !contains_str(&nk, id.as_str()), message("Unknown node id: ", id.as_str()));
            push_if(&mut errors, is_degenerate(bounds), "resize-card bounds must be positive".to_owned());
        },
        RenderScenePatch::ResizeGroup { id, bounds } => {
            push_if(&mut errors, !contains_str(&gk, id.as_str()), message("Unknown group id: ", id.as_str()));
            push_if(&mut errors, is_degenerate(bounds), "resize-group bounds must be positive".to_owned());
        },
        RenderScenePatch::AlignCards { ids, .. } => {
            push_if(&mut errors, ids.len() < 2, "align-cards requires at least 2 ids".to_owned());
            push_unknown(&mut errors, ids, &nk, &none, "Unknown node id: ");
        },
        RenderScenePatch::DistributeCards { ids, .. } => {
            push_if(&mut errors, ids.len() < 3, "distribute-cards requires at least 3 ids".to_owned());
            push_unknown(&mut errors, ids, &nk, &none, "Unknown node id: ");
        },
        RenderScenePatch::DuplicateObjects { ids, .. } => {
            push_if(&mut errors, ids.len() == 0, "duplicate-objects requires at least 1 id".to_owned());
            push_unknown(&mut errors, ids, &nk, &gk, "Unknown id: ");
        },
        RenderScenePatch::Batch { ops } => {
            push_if(&mut errors, ops.len() == 0, "batch requires at least 1 op".to_owned());
        },
        RenderScenePatch::GroupObjects { ids, frame_id, parent_group_id, .. } => {
            push_if(&mut errors, ids.len() == 0, "group-objects requires at least 1 id".to_owned());
            push_if(&mut errors, frame_id.as_str().unicode_len() == 0, "group-objects requires a frameId".to_owned());
            push_if(&mut errors, contains_str(&gk, frame_id.as_str()), message("Duplicate group id: ", frame_id.as_str()));
            push_unknown(&mut errors, ids, &nk, &gk, "Unknown id: ");
            match parent_group_id {
                Some(pg) => {
                    push_if(&mut errors, !contains_str(&gk, pg.as_str()), message("Unknown parentGroupId: ", pg.as_str()));
                },
                None => {
                    proof {
                        assert(strs(errors@) + Seq::<Seq<char>>::empty() =~= strs(errors@));
                    }
                },
            }
        },
        RenderScenePatch::SetObjectGroup { ids, frame_id } => {
            push_if(&mut errors, ids.len() == 0, "set-object-group requires at least 1 id".to_owned());
            push_if(&mut errors, !contains_str(&gk, frame_id.as_str()), message("Unknown group id: ", frame_id.as_str()));
            push_unknown(&mut errors, ids, &nk, &ek, "Unknown id: ");
        },
        RenderScenePatch::SetObjectTags { target_kind, id, tag_ids: wanted } => {
            match target_kind {
                TargetKind::Frame => {
                    push_if(&mut errors, !contains_str(&gk, id.as_str()), message("Unknown group id: ", id.as_str()));
                },
                TargetKind::Card => {
                    push_if(&mut errors, !contains_str(&nk, id.as_str()), message("Unknown node id: ", id.as_str()));
                },
                TargetKind::Edge => {
                    push_if(&mut errors, !contains_str(&ek, id.as_str()), message("Unknown edge id: ", id.as_str()));
                },
            }
            let tk = tag_ids(&scene.tags);
            push_unknown(&mut errors, wanted, &tk, &none, "Unknown tag id: ");
        },
        RenderScenePatch::CreateTag { tag } => {
            let tk = tag_ids(&scene.tags);
            push_if(&mut errors, contains_str(&tk, tag.id.as_str()), message("Duplicate tag id: ", tag.id.as_str()));
        },
    }
    proof {
        assert(strs(errors@) =~= patch_errors(scene@, patch@));
    }
    errors
}


// ---------------------------------------------------------------------------
// The edit each kind of patch makes
// ---------------------------------------------------------------------------

/// `arrange` is defined everywhere and gives one result per list of
/// placements and arrangement.
pub open spec fn arranges<L: Fn(&Vec<(Point, Size)>, Arrangement) -> Vec<(usize, Point)>>(arrange: L) -> bool {
    &&& forall|v: &Vec<(Point, Size)>, k: Arrangement| #[trigger] arrange.requires((v, k))
    &&& forall|v1: &Vec<(Point, Size)>, v2: &Vec<(Point, Size)>, k: Arrangement, o1: Vec<(usize, Point)>, o2: Vec<(usize, Point)>|
        v1@ == v2@ && #[trigger] arrange.ensures((v1, k), o1) && #[trigger] arrange.ensures((v2, k), o2) ==> o1@ == o2@
}

/// The placement `arrange` gives.
pub open spec fn arranged_by<L: Fn(&Vec<(Point, Size)>, Arrangement) -> Vec<(usize, Point)>>(arrange: L) -> spec_fn(
    Seq<(Point, Size)>,
    Arrangement,
) -> Seq<(usize, Point)> {
    |s: Seq<(Point, Size)>, k: Arrangement|
        (choose|v: &Vec<(Point, Size)>, o: Vec<(usize, Point)>| v@ == s && #[trigger] arrange.ensures((v, k), o)).1@
}

/// `frame` is defined everywhere and gives one result per list of placements.
pub open spec fn frames<F: Fn(&Vec<(Point, Size)>) -> Bounds>(frame: F) -> bool {
    &&& forall|v: &Vec<(Point, Size)>| #[trigger] frame.requires((v,))
    &&& forall|v1: &Vec<(Point, Size)>, v2: &Vec<(Point, Size)>, b1: Bounds, b2: Bounds|
        v1@ == v2@ && #[trigger] frame.ensures((v1,), b1) && #[trigger] frame.ensures((v2,), b2) ==> b1 == b2
}

/// The bounds `frame` gives.
pub open spec fn framed_by<F: Fn(&Vec<(Point, Size)>) -> Bounds>(frame: F) -> spec_fn(Seq<(Point, Size)>) -> Bounds {
    |s: Seq<(Point, Size)>| (choose|v: &Vec<(Point, Size)>, b: Bounds| v@ == s && #[trigger] frame.ensures((v,), b)).1
}

/// The three functions of a geometry are each defined everywhere and
/// deterministic.
pub open spec fn sound<
    A: Fn(u64, u64) -> u64,
    L: Fn(&Vec<(Point, Size)>, Arrangement) -> Vec<(usize, Point)>,
    F: Fn(&Vec<(Point, Size)>) -> Bounds,
>(g: Geometry<A, L, F>) -> bool {
    adds(g.plus) && arranges(g.arrange) && frames(g.frame)
}

/// A geometry as functions.
pub struct Geo {
    pub plus: spec_fn(u64, u64) -> u64,
    pub arrange: spec_fn(Seq<(Point, Size)>, Arrangement) -> Seq<(usize, Point)>,
    pub frame: spec_fn(Seq<(Point, Size)>) -> Bounds,
}

/// The functions a geometry computes.
pub open spec fn geo<
    A: Fn(u64, u64) -> u64,
    L: Fn(&Vec<(Point, Size)>, Arrangement) -> Vec<(usize, Point)>,
    F: Fn(&Vec<(Point, Size)>) -> Bounds,
>(g: Geometry<A, L, F>) -> Geo {
    Geo { plus: sum_by(g.plus), arrange: arranged_by(g.arrange), frame: framed_by(g.frame) }
}

/// `x` reaches `root` by following at most `n` parent links.
pub open spec fn reaches_within_v(gs: Seq<SceneGroupView>, x: Seq<char>, root: Seq<char>, n: nat) -> bool
    decreases n,
{
    x == root || (n > 0 && exists|i: int|
        0 <= i < gs.len() && #[trigger] gs[i].id == x && match gs[i].parent_group_id {
            Some(p) => reaches_within_v(gs, p, root, (n - 1) as nat),
            None => false,
        })
}

/// `x` is `root` or a group whose parent chain reaches `root`.
pub open spec fn in_subtree(gs: Seq<SceneGroupView>, root: Seq<char>, x: Seq<char>) -> bool {
    exists|n: nat| reaches_within_v(gs, x, root, n)
}

proof fn lemma_reaches_views(groups: Seq<SceneGroup>, x: Seq<char>, root: Seq<char>, n: nat)
    ensures
        crate::graph::reaches_within(groups, x, root, n) == reaches_within_v(views(groups), x, root, n),
    decreases n,
{
    let gv = views(groups);
    if x != root && n > 0 {
        if crate::graph::reaches_within(groups, x, root, n) {
            let i = choose|i: int|
                0 <= i < groups.len() && #[trigger] groups[i].id@ == x && match groups[i].parent_group_id {
                    Some(p) => crate::graph::reaches_within(groups, p@, root, (n - 1) as nat),
                    None => false,
                };
            let p = groups[i].parent_group_id->0;
            lemma_reaches_views(groups, p@, root, (n - 1) as nat);
            assert(gv[i] == groups[i]@);
            assert(gv[i].id == x);
        }
        if reaches_within_v(gv, x, root, n) {
            let i = choose|i: int|
                0 <= i < gv.len() && #[trigger] gv[i].id == x && match gv[i].parent_group_id {
                    Some(p) => reaches_within_v(gv, p, root, (n - 1) as nat),
                    None => false,
                };
            assert(gv[i] == groups[i]@);
            let p = groups[i].parent_group_id->0;
            lemma_reaches_views(groups, p@, root, (n - 1) as nat);
            assert(groups[i].id@ == x);
        }
    }
}

proof fn lemma_subtree_views(groups: Seq<SceneGroup>, root: Seq<char>, x: Seq<char>)
    ensures
        crate::graph::in_group_subtree(groups, root, x) == in_subtree(views(groups), root, x),
{
    if crate::graph::in_group_subtree(groups, root, x) {
        let n = choose|n: nat| crate::graph::reaches_within(groups, x, root, n);
        lemma_reaches_views(groups, x, root, n);
    }
    if in_subtree(views(groups), root, x) {
        let n = choose|n: nat| reaches_within_v(views(groups), x, root, n);
        lemma_reaches_views(groups, x, root, n);
    }
}

/// The first card with id `id`.
pub open spec fn first_node(ns: Seq<SceneNodeView>, id: Seq<char>) -> SceneNodeView
    decreases ns.len(),
{
    if ns.len() == 0 {
        arbitrary()
    } else if ns[0].id == id {
        ns[0]
    } else {
        first_node(ns.drop_first(), id)
    }
}

/// The first group with id `id`.
pub open spec fn first_group(gs: Seq<SceneGroupView>, id: Seq<char>) -> SceneGroupView
    decreases gs.len(),
{
    if gs.len() == 0 {
        arbitrary()
    } else if gs[0].id == id {
        gs[0]
    } else {
        first_group(gs.drop_first(), id)
    }
}

/// The first edge with id `id`.
pub open spec fn first_edge(es: Seq<SceneEdgeView>, id: Seq<char>) -> SceneEdgeView
    decreases es.len(),
{
    if es.len() == 0 {
        arbitrary()
    } else if es[0].id == id {
        es[0]
    } else {
        first_edge(es.drop_first(), id)
    }
}

/// The id a duplicate of `id` gets.
pub open spec fn dup_id(id: Seq<char>, now: Seq<char>) -> Seq<char> {
    id + "-dup-"@ + now
}

/// The bit pattern of the `f64` one half.
pub const HALF_BITS: u64 = 0x3fe0_0000_0000_0000;

/// The wire name of a card kind, read back; an unknown name is a task.
pub open spec fn node_type_named(t: Seq<char>) -> NodeType {
    if t == "proposition"@ {
        NodeType::Proposition
    } else if t == "decision_point"@ {
        NodeType::DecisionPoint
    } else if t == "option"@ {
        NodeType::Option
    } else if t == "evidence"@ {
        NodeType::Evidence
    } else if t == "tradeoff"@ {
        NodeType::Tradeoff
    } else if t == "blocker"@ {
        NodeType::Blocker
    } else if t == "subdecision"@ {
        NodeType::Subdecision
    } else if t == "task"@ {
        NodeType::Task
    } else if t == "artifact"@ {
        NodeType::Artifact
    } else {
        NodeType::Task
    }
}

/// The wire name of a card status, read back; an unknown name is a draft.
pub open spec fn node_status_named(t: Seq<char>) -> NodeStatus {
    if t == "draft"@ {
        NodeStatus::Draft
    } else if t == "viable"@ {
        NodeStatus::Viable
    } else if t == "conditional"@ {
        NodeStatus::Conditional
    } else if t == "infeasible"@ {
        NodeStatus::Infeasible
    } else if t == "unknown"@ {
        NodeStatus::Unknown
    } else if t == "selected"@ {
        NodeStatus::Selected
    } else if t == "deferred"@ {
        NodeStatus::Deferred
    } else if t == "complete"@ {
        NodeStatus::Complete
    } else {
        NodeStatus::Draft
    }
}

/// The group a render group describes, created `now`.
pub open spec fn group_from_render(g: RenderGroupView, now: Seq<char>) -> SceneGroupView {
    SceneGroupView {
        id: g.id,
        parent_group_id: None,
        title: if g.title.len() == 0 { "Untitled group"@ } else { g.title },
        summary: g.summary,
        bounds: g.bounds,
        tag_ids: g.tag_ids,
        z_index: g.z_index,
        collapsed: false,
        created_at: now,
        updated_at: now,
        meta: None,
    }
}

/// The card a render card describes, created `now` with confidence one half.
pub open spec fn node_from_render(c: RenderCardView, now: Seq<char>) -> SceneNodeView {
    SceneNodeView {
        id: c.id,
        node_type: node_type_named(c.node_type),
        title: if c.title.len() == 0 { "Untitled node"@ } else { c.title },
        summary: c.summary,
        detail: c.detail,
        status: node_status_named(c.status),
        confidence: HALF_BITS,
        evidence_refs: seq![],
        child_decision_ids: seq![],
        group_id: c.group_id,
        position: Point { x: c.bounds.x, y: c.bounds.y },
        size: Size { width: c.bounds.width, height: c.bounds.height },
        z_index: c.z_index,
        tag_ids: seq![],
        updated_at: Some(now),
        meta: None,
    }
}

/// The position and size of each card.
pub open spec fn placements(ns: Seq<SceneNodeView>) -> Seq<(Point, Size)> {
    ns.map_values(|n: SceneNodeView| (n.position, n.size))
}

/// The cards an arrangement places: each entry of `out` whose index names a
/// card of `targets` gives that card its new position, stamped `now`.
pub open spec fn arranged_nodes(targets: Seq<SceneNodeView>, out: Seq<(usize, Point)>, now: Seq<char>) -> Seq<
    SceneNodeView,
>
    decreases out.len(),
{
    if out.len() == 0 {
        seq![]
    } else {
        let (i, p) = out.last();
        arranged_nodes(targets, out.drop_last(), now) + if (i as int) < targets.len() {
            seq![SceneNodeView { position: p, updated_at: Some(now), ..targets[i as int] }]
        } else {
            seq![]
        }
    }
}

/// A patch that only sets these parts.
pub open spec fn patch_of(
    groups: Option<Seq<SceneGroupView>>,
    nodes: Option<Seq<SceneNodeView>>,
    edges: Option<Seq<SceneEdgeView>>,
    selection: SelectionView,
) -> ScenePatchView {
    ScenePatchView { groups, nodes, edges, selection: Some(selection), ..empty_scene_patch() }
}

/// The ids among `ids` in the scene's group subtree of `root`, in scene order.
pub open spec fn subtree_group_ids(s: SceneView, root: Seq<char>) -> Seq<Seq<char>> {
    keep(group_ids_of(s.groups), |x: Seq<char>| in_subtree(s.groups, root, x))
}

/// The group a tag-set or resize edits: `g` with new tags, stamped `now`.
pub open spec fn retagged_group(g: SceneGroupView, tags: Seq<Seq<char>>, now: Seq<char>) -> SceneGroupView {
    SceneGroupView { tag_ids: tags, updated_at: now, ..g }
}

/// The first group, in scene order, other than `id`.
pub open spec fn other_group(gs: Seq<SceneGroupView>, id: Seq<char>) -> Option<Seq<char>>
    decreases gs.len(),
{
    if gs.len() == 0 {
        None
    } else if gs[0].id != id {
        Some(gs[0].id)
    } else {
        other_group(gs.drop_first(), id)
    }
}


/// Cards whose id is among `ids`.
pub open spec fn node_id_in(ids: Seq<Seq<char>>) -> spec_fn(SceneNodeView) -> bool {
    |n: SceneNodeView| ids.contains(n.id)
}

/// Groups whose id is among `ids`.
pub open spec fn group_id_in(ids: Seq<Seq<char>>) -> spec_fn(SceneGroupView) -> bool {
    |g: SceneGroupView| ids.contains(g.id)
}

/// Edges whose id is among `ids`.
pub open spec fn edge_id_in(ids: Seq<Seq<char>>) -> spec_fn(SceneEdgeView) -> bool {
    |e: SceneEdgeView| ids.contains(e.id)
}

/// Edges with both ends among `ids`.
pub open spec fn edge_ends_in(ids: Seq<Seq<char>>) -> spec_fn(SceneEdgeView) -> bool {
    |e: SceneEdgeView| ids.contains(e.source) && ids.contains(e.target)
}

/// Edges with either end at `id`.
pub open spec fn edge_touches(id: Seq<char>) -> spec_fn(SceneEdgeView) -> bool {
    |e: SceneEdgeView| e.source == id || e.target == id
}

/// Edges in a removed group or with an end at a removed card.
pub open spec fn edge_removed_with(rg: Seq<Seq<char>>, rn: Seq<Seq<char>>) -> spec_fn(SceneEdgeView) -> bool {
    |e: SceneEdgeView| rg.contains(e.group_id) || rn.contains(e.source) || rn.contains(e.target)
}

/// Cards in group `id`.
pub open spec fn node_in_group(id: Seq<char>) -> spec_fn(SceneNodeView) -> bool {
    |n: SceneNodeView| n.group_id == id
}

/// Edges in group `id`.
pub open spec fn edge_in_group(id: Seq<char>) -> spec_fn(SceneEdgeView) -> bool {
    |e: SceneEdgeView| e.group_id == id
}

/// Groups whose parent is `id`.
pub open spec fn group_child_of(id: Seq<char>) -> spec_fn(SceneGroupView) -> bool {
    |g: SceneGroupView| g.parent_group_id == Some(id)
}

/// A card moved into group `gid`, stamped `now`.
pub open spec fn node_regrouped(gid: Seq<char>, now: Seq<char>) -> spec_fn(SceneNodeView) -> SceneNodeView {
    |n: SceneNodeView| SceneNodeView { group_id: gid, updated_at: Some(now), ..n }
}

/// An edge moved into group `gid`, stamped `now`.
pub open spec fn edge_regrouped(gid: Seq<char>, now: Seq<char>) -> spec_fn(SceneEdgeView) -> SceneEdgeView {
    |e: SceneEdgeView| SceneEdgeView { group_id: gid, updated_at: Some(now), ..e }
}

/// A group given parent `parent`, stamped `now`.
pub open spec fn group_reparented(parent: Option<Seq<char>>, now: Seq<char>) -> spec_fn(SceneGroupView) -> SceneGroupView {
    |g: SceneGroupView| SceneGroupView { parent_group_id: parent, updated_at: now, ..g }
}

/// A card moved to group `fallback` when there is one, stamped `now`.
pub open spec fn node_rehomed(fallback: Option<Seq<char>>, now: Seq<char>) -> spec_fn(SceneNodeView) -> SceneNodeView {
    |n: SceneNodeView|
        SceneNodeView {
            group_id: match fallback {
                Some(f) => f,
                None => n.group_id,
            },
            updated_at: Some(now),
            ..n
        }
}

/// An edge moved to group `fallback` when there is one, stamped `now`.
pub open spec fn edge_rehomed(fallback: Option<Seq<char>>, now: Seq<char>) -> spec_fn(SceneEdgeView) -> SceneEdgeView {
    |e: SceneEdgeView|
        SceneEdgeView {
            group_id: match fallback {
                Some(f) => f,
                None => e.group_id,
            },
            updated_at: Some(now),
            ..e
        }
}

/// A duplicate of a card, offset by `delta`, stamped `now`.
pub open spec fn node_duplicated(delta: Point, now: Seq<char>, plus: spec_fn(u64, u64) -> u64) -> spec_fn(
    SceneNodeView,
) -> SceneNodeView {
    |n: SceneNodeView|
        SceneNodeView {
            id: dup_id(n.id, now),
            position: Point { x: plus(n.position.x, delta.x), y: plus(n.position.y, delta.y) },
            updated_at: Some(now),
            ..n
        }
}

/// A duplicate of an edge between the duplicates of its ends, stamped `now`.
pub open spec fn edge_duplicated(now: Seq<char>) -> spec_fn(SceneEdgeView) -> SceneEdgeView {
    |e: SceneEdgeView|
        SceneEdgeView {
            id: dup_id(e.id, now),
            source: dup_id(e.source, now),
            target: dup_id(e.target, now),
            updated_at: Some(now),
            ..e
        }
}

/// A patch that upserts one card and selects it.
pub open spec fn node_patch(n: SceneNodeView) -> ScenePatchView {
    patch_of(None, Some(seq![n]), None, SelectionView::Node { id: n.id })
}

/// A patch that upserts one group and selects it.
pub open spec fn group_patch(g: SceneGroupView) -> ScenePatchView {
    patch_of(Some(seq![g]), None, None, SelectionView::Group { id: g.id })
}

/// A patch that upserts one edge and selects it.
pub open spec fn edge_patch(e: SceneEdgeView) -> ScenePatchView {
    patch_of(None, None, Some(seq![e]), SelectionView::Edge { id: e.id })
}

/// The cards of the scene whose id is among `ids`, in scene order.
pub open spec fn targets_of(s: SceneView, ids: Seq<Seq<char>>) -> Seq<SceneNodeView> {
    keep(s.nodes, node_id_in(ids))
}

/// The bulk patch a valid edit other than a batch or a tag creation commits.
pub open spec fn effect(s: SceneView, p: PatchView, now: Seq<char>, g: Geo) -> ScenePatchView {
    let canvas = SelectionView::Canvas;
    match p {
        PatchView::CreateGroup { group } => group_patch(group_from_render(group, now)),
        PatchView::DeleteGroup { id } => {
            let rg = subtree_group_ids(s, id);
            let rn = node_ids_of(keep(s.nodes, node_in_groups(rg)));
            ScenePatchView {
                remove_group_ids: Some(rg),
                remove_node_ids: Some(rn),
                remove_edge_ids: Some(edge_ids_of(keep(s.edges, edge_removed_with(rg, rn)))),
                selection: Some(canvas),
                ..empty_scene_patch()
            }
        },
        PatchView::MoveGroup { id, delta } => ScenePatchView {
            translate_groups: Some(seq![TranslateGroupView { group_id: id, dx: delta.x, dy: delta.y }]),
            selection: Some(SelectionView::Group { id }),
            ..empty_scene_patch()
        },
        PatchView::MoveCard { id, position } => node_patch(
            SceneNodeView { position, updated_at: Some(now), ..first_node(s.nodes, id) },
        ),
        PatchView::SetCardZIndex { id, z_index } => node_patch(
            SceneNodeView { z_index, updated_at: Some(now), ..first_node(s.nodes, id) },
        ),
        PatchView::EditCardText { id, field, value } => {
            let n = first_node(s.nodes, id);
            node_patch(
                match field {
                    EditField::Title => SceneNodeView { title: value, updated_at: Some(now), ..n },
                    EditField::Summary => SceneNodeView { summary: value, updated_at: Some(now), ..n },
                    EditField::Detail => SceneNodeView { detail: value, updated_at: Some(now), ..n },
                },
            )
        },
        PatchView::CreateCard { card } => node_patch(node_from_render(card, now)),
        PatchView::DeleteCard { id } => ScenePatchView {
            remove_node_ids: Some(seq![id]),
            remove_edge_ids: Some(edge_ids_of(keep(s.edges, edge_touches(id)))),
            selection: Some(canvas),
            ..empty_scene_patch()
        },
        PatchView::CreateEdge { group_id, source, target, edge_id, label } => edge_patch(
            SceneEdgeView {
                id: edge_id,
                edge_type: EdgeType::Supports,
                source,
                target,
                label: match label {
                    Some(l) => l,
                    None => "relates"@,
                },
                rationale: Seq::empty(),
                confidence: HALF_BITS,
                group_id,
                tag_ids: seq![],
                updated_at: Some(now),
                meta: None,
            },
        ),
        PatchView::DeleteEdge { id } => ScenePatchView {
            remove_edge_ids: Some(seq![id]),
            selection: Some(canvas),
            ..empty_scene_patch()
        },
        PatchView::ResizeCard { id, bounds } => node_patch(
            SceneNodeView {
                position: Point { x: bounds.x, y: bounds.y },
                size: Size { width: bounds.width, height: bounds.height },
                updated_at: Some(now),
                ..first_node(s.nodes, id)
            },
        ),
        PatchView::ResizeGroup { id, bounds } => group_patch(
            SceneGroupView { bounds, updated_at: now, ..first_group(s.groups, id) },
        ),
        PatchView::AlignCards { ids, axis, mode } => {
            let targets = targets_of(s, ids);
            patch_of(
                None,
                Some(arranged_nodes(targets, (g.arrange)(placements(targets), Arrangement::Align { axis, mode }), now)),
                None,
                canvas,
            )
        },
        PatchView::DistributeCards { ids, axis } => {
            let targets = targets_of(s, ids);
            patch_of(
                None,
                Some(arranged_nodes(targets, (g.arrange)(placements(targets), Arrangement::Distribute { axis }), now)),
                None,
                canvas,
            )
        },
        PatchView::DuplicateObjects { ids, delta } => {
            let nn = targets_of(s, ids).map_values(node_duplicated(delta, now, g.plus));
            let ne = keep(s.edges, edge_ends_in(ids)).map_values(edge_duplicated(now));
            patch_of(
                None,
                Some(nn),
                Some(ne),
                if nn.len() > 0 { SelectionView::Node { id: nn[0].id } } else { canvas },
            )
        },
        PatchView::GroupObjects { ids, frame_id, parent_group_id, title, bounds } => {
            let members = targets_of(s, ids);
            let frame = SceneGroupView {
                id: frame_id,
                parent_group_id,
                title: match title {
                    Some(t) => t,
                    None => "Group"@,
                },
                summary: Seq::empty(),
                bounds: match bounds {
                    Some(b) => b,
                    None => (g.frame)(placements(members)),
                },
                tag_ids: seq![],
                z_index: 0,
                collapsed: false,
                created_at: now,
                updated_at: now,
                meta: None,
            };
            patch_of(
                Some(seq![frame] + keep(s.groups, group_id_in(ids)).map_values(group_reparented(Some(frame_id), now))),
                Some(members.map_values(node_regrouped(frame_id, now))),
                None,
                SelectionView::Group { id: frame_id },
            )
        },
        PatchView::Ungroup { id } => {
            let parent = first_group(s.groups, id).parent_group_id;
            let fallback = match parent {
                Some(pg) => Some(pg),
                None => other_group(s.groups, id),
            };
            ScenePatchView {
                groups: Some(keep(s.groups, group_child_of(id)).map_values(group_reparented(parent, now))),
                nodes: Some(keep(s.nodes, node_in_group(id)).map_values(node_rehomed(fallback, now))),
                edges: Some(keep(s.edges, edge_in_group(id)).map_values(edge_rehomed(fallback, now))),
                remove_group_ids: Some(seq![id]),
                selection: Some(canvas),
                ..empty_scene_patch()
            }
        },
        PatchView::SetObjectGroup { ids, frame_id } => {
            let un = targets_of(s, ids).map_values(node_regrouped(frame_id, now));
            let ue = keep(s.edges, edge_id_in(ids)).map_values(edge_regrouped(frame_id, now));
            patch_of(
                None,
                Some(un),
                Some(ue),
                if un.len() > 0 {
                    SelectionView::Node { id: un[0].id }
                } else if ue.len() > 0 {
                    SelectionView::Edge { id: ue[0].id }
                } else {
                    SelectionView::Group { id: frame_id }
                },
            )
        },
        PatchView::SetObjectTags { target_kind, id, tag_ids } => match target_kind {
            TargetKind::Frame => group_patch(retagged_group(first_group(s.groups, id), tag_ids, now)),
            TargetKind::Card => node_patch(
                SceneNodeView { tag_ids, updated_at: Some(now), ..first_node(s.nodes, id) },
            ),
            TargetKind::Edge => edge_patch(
                SceneEdgeView { tag_ids, updated_at: Some(now), ..first_edge(s.edges, id) },
            ),
        },
        PatchView::Select { selection } => ScenePatchView { selection: Some(selection), ..empty_scene_patch() },
        _ => empty_scene_patch(),
    }
}


// ---------------------------------------------------------------------------
// What an edit gives
// ---------------------------------------------------------------------------

/// The number of single edits an edit stands for, a batch counting those of
/// its ops.
pub open spec fn weight(p: PatchView) -> nat
    decreases p,
{
    match p {
        PatchView::Batch { ops } => weights(ops),
        _ => 1,
    }
}

/// The single edits a list of edits stands for.
pub open spec fn weights(ops: Seq<PatchView>) -> nat
    decreases ops,
{
    if ops.len() == 0 {
        0
    } else {
        weights(ops.drop_last()) + weight(ops.last())
    }
}

/// A refused edit: the scene unchanged, nothing committed, the errors.
pub open spec fn refused(s: SceneView, errors: Seq<Seq<char>>, env: OperationEnvelopeView) -> AppliedView {
    AppliedView { scene: s, app_patch: empty_scene_patch(), errors, envelope: env }
}

/// A committed bulk patch.
pub open spec fn commit_view(s: SceneView, cp: ScenePatchView, now: Seq<char>, env: OperationEnvelopeView, g: Geo) -> AppliedView {
    AppliedView { scene: committed(s, cp, now, g.plus), app_patch: cp, errors: seq![], envelope: env }
}

/// The scene with tag `t` appended (stamped `now`), version bumped.
pub open spec fn with_tag(s: SceneView, t: TagView, now: Seq<char>) -> SceneView {
    SceneView {
        scene_version: (s.scene_version + 1) as i64,
        tags: s.tags.push(TagView { updated_at: now, ..t }),
        updated_at: now,
        ..s
    }
}

/// The `f64` with bit pattern `b` is a NaN.
pub open spec fn nan_bits(b: u64) -> bool {
    (0x7ff0_0000_0000_0000 < b && b < 0x8000_0000_0000_0000) || 0xfff0_0000_0000_0000 < b
}

/// The `f64` values with bit patterns `a` and `b` compare equal: neither is a
/// NaN and they are the same number (the two zeros are equal).
pub open spec fn same_number(a: u64, b: u64) -> bool {
    !nan_bits(a) && !nan_bits(b) && (a == b || ((a == 0 || a == 0x8000_0000_0000_0000) && (b == 0
        || b == 0x8000_0000_0000_0000)))
}

/// Two optional metadata maps compare equal.
pub open spec fn same_meta(a: Option<ObjectMeta>, b: Option<ObjectMeta>) -> bool {
    match (a, b) {
        (None, None) => true,
        (Some(x), Some(y)) => json_map_eq(x, y),
        _ => false,
    }
}

/// Two cards compare equal field by field.
pub open spec fn same_node(a: SceneNodeView, b: SceneNodeView) -> bool {
    &&& a.id == b.id
    &&& a.node_type == b.node_type
    &&& a.title == b.title
    &&& a.summary == b.summary
    &&& a.detail == b.detail
    &&& a.status == b.status
    &&& same_number(a.confidence, b.confidence)
    &&& a.evidence_refs == b.evidence_refs
    &&& a.child_decision_ids == b.child_decision_ids
    &&& a.group_id == b.group_id
    &&& same_number(a.position.x, b.position.x)
    &&& same_number(a.position.y, b.position.y)
    &&& same_number(a.size.width, b.size.width)
    &&& same_number(a.size.height, b.size.height)
    &&& same_number(a.z_index, b.z_index)
    &&& a.tag_ids == b.tag_ids
    &&& a.updated_at == b.updated_at
    &&& same_meta(a.meta, b.meta)
}

/// Two edges compare equal field by field.
pub open spec fn same_edge(a: SceneEdgeView, b: SceneEdgeView) -> bool {
    &&& a.id == b.id
    &&& a.edge_type == b.edge_type
    &&& a.source == b.source
    &&& a.target == b.target
    &&& a.label == b.label
    &&& a.rationale == b.rationale
    &&& same_number(a.confidence, b.confidence)
    &&& a.group_id == b.group_id
    &&& a.tag_ids == b.tag_ids
    &&& a.updated_at == b.updated_at
    &&& same_meta(a.meta, b.meta)
}

/// Two groups compare equal field by field.
pub open spec fn same_group(a: SceneGroupView, b: SceneGroupView) -> bool {
    &&& a.id == b.id
    &&& a.parent_group_id == b.parent_group_id
    &&& a.title == b.title
    &&& a.summary == b.summary
    &&& same_number(a.bounds.x, b.bounds.x)
    &&& same_number(a.bounds.y, b.bounds.y)
    &&& same_number(a.bounds.width, b.bounds.width)
    &&& same_number(a.bounds.height, b.bounds.height)
    &&& a.tag_ids == b.tag_ids
    &&& same_number(a.z_index, b.z_index)
    &&& a.collapsed == b.collapsed
    &&& a.created_at == b.created_at
    &&& a.updated_at == b.updated_at
    &&& same_meta(a.meta, b.meta)
}

/// The last card with id `id`, if any.
pub open spec fn last_node(ns: Seq<SceneNodeView>, id: Seq<char>) -> Option<SceneNodeView>
    decreases ns.len(),
{
    if ns.len() == 0 {
        None
    } else if ns.last().id == id {
        Some(ns.last())
    } else {
        last_node(ns.drop_last(), id)
    }
}

/// The last edge with id `id`, if any.
pub open spec fn last_edge(es: Seq<SceneEdgeView>, id: Seq<char>) -> Option<SceneEdgeView>
    decreases es.len(),
{
    if es.len() == 0 {
        None
    } else if es.last().id == id {
        Some(es.last())
    } else {
        last_edge(es.drop_last(), id)
    }
}

/// The last group with id `id`, if any.
pub open spec fn last_group(gs: Seq<SceneGroupView>, id: Seq<char>) -> Option<SceneGroupView>
    decreases gs.len(),
{
    if gs.len() == 0 {
        None
    } else if gs.last().id == id {
        Some(gs.last())
    } else {
        last_group(gs.drop_last(), id)
    }
}

/// Cards that are new or differ from the card of the same id in `orig`.
pub open spec fn node_changed(orig: Seq<SceneNodeView>) -> spec_fn(SceneNodeView) -> bool {
    |n: SceneNodeView|
        match last_node(orig, n.id) {
            Some(o) => !same_node(o, n),
            None => true,
        }
}

/// Edges that are new or differ from the edge of the same id in `orig`.
pub open spec fn edge_changed(orig: Seq<SceneEdgeView>) -> spec_fn(SceneEdgeView) -> bool {
    |e: SceneEdgeView|
        match last_edge(orig, e.id) {
            Some(o) => !same_edge(o, e),
            None => true,
        }
}

/// Groups that are new or differ from the group of the same id in `orig`.
pub open spec fn group_changed(orig: Seq<SceneGroupView>) -> spec_fn(SceneGroupView) -> bool {
    |g: SceneGroupView|
        match last_group(orig, g.id) {
            Some(o) => !same_group(o, g),
            None => true,
        }
}

/// A list, or none when it is empty.
pub open spec fn non_empty<A>(s: Seq<A>) -> Option<Seq<A>> {
    if s.len() == 0 {
        None
    } else {
        Some(s)
    }
}

/// The bulk patch that takes scene `a` to scene `b`: the cards, edges and
/// groups of `b` that are new or changed, the ids of those of `a` that are
/// gone, and `b`'s selection.
pub open spec fn scene_diff(a: SceneView, b: SceneView) -> ScenePatchView {
    ScenePatchView {
        nodes: non_empty(keep(b.nodes, node_changed(a.nodes))),
        edges: non_empty(keep(b.edges, edge_changed(a.edges))),
        groups: non_empty(keep(b.groups, group_changed(a.groups))),
        remove_node_ids: non_empty(node_ids_of(keep(a.nodes, node_not_in(node_ids_of(b.nodes))))),
        remove_edge_ids: non_empty(edge_ids_of(keep(a.edges, edge_not_in(edge_ids_of(b.edges))))),
        remove_group_ids: non_empty(group_ids_of(keep(a.groups, group_not_in(group_ids_of(b.groups))))),
        translate_groups: None,
        selection: Some(b.selection),
    }
}

/// What applying edit `p` to scene `s` gives, with envelope `env`: when
/// validation finds errors, the refusal; otherwise a batch runs its ops in
/// turn on the evolving scene, each with the same envelope, and stops at the
/// first refusal, which refuses the whole batch; a tag creation appends the
/// tag; an align or distribute with no matching card is refused; any other
/// edit commits its bulk patch (see [`effect`]).
pub open spec fn applied(s: SceneView, p: PatchView, now: Seq<char>, env: OperationEnvelopeView, g: Geo) -> AppliedView
    decreases p,
{
    let errors = patch_errors(s, p);
    if errors.len() > 0 {
        refused(s, errors, env)
    } else {
        match p {
            PatchView::Batch { ops } => match batch_run(s, ops, now, env, g) {
                Ok(cur) => AppliedView { scene: cur, app_patch: scene_diff(s, cur), errors: seq![], envelope: env },
                Err(e) => refused(s, e, env),
            },
            PatchView::CreateTag { tag } => AppliedView {
                scene: with_tag(s, tag, now),
                app_patch: empty_scene_patch(),
                errors: seq![],
                envelope: env,
            },
            PatchView::AlignCards { ids, .. } => if targets_of(s, ids).len() == 0 {
                refused(s, seq!["No matching nodes for align-cards"@], env)
            } else {
                commit_view(s, effect(s, p, now, g), now, env, g)
            },
            PatchView::DistributeCards { ids, .. } => if targets_of(s, ids).len() == 0 {
                refused(s, seq!["No matching nodes for distribute-cards"@], env)
            } else {
                commit_view(s, effect(s, p, now, g), now, env, g)
            },
            _ => commit_view(s, effect(s, p, now, g), now, env, g),
        }
    }
}

/// A batch's ops applied in turn: the final scene, or the errors of the first
/// op refused.
pub open spec fn batch_run(s: SceneView, ops: Seq<PatchView>, now: Seq<char>, env: OperationEnvelopeView, g: Geo) -> Result<
    SceneView,
    Seq<Seq<char>>,
>
    decreases ops,
{
    if ops.len() == 0 {
        Ok(s)
    } else {
        match batch_run(s, ops.drop_last(), now, env, g) {
            Ok(cur) => {
                let r = applied(cur, ops.last(), now, env, g);
                if r.errors.len() > 0 {
                    Err(r.errors)
                } else {
                    Ok(r.scene)
                }
            },
            Err(e) => Err(e),
        }
    }
}


// ---------------------------------------------------------------------------
// Building the bulk patch of an edit
// ---------------------------------------------------------------------------

/// Each item of `v` mapped by `f`, which computes `sf` on views.
fn map_all<T: View>(v: &Vec<T>, Ghost(sf): Ghost<spec_fn(T::V) -> T::V>, f: impl Fn(&T) -> T) -> (r: Vec<T>)
    requires
        forall|t: &T| #[trigger] f.requires((t,)),
        forall|t: &T, u: T| f.ensures((t,), u) ==> u@ == sf(t@),
    ensures
        views(r@) == views(v@).map_values(sf),
{
    let mut r: Vec<T> = Vec::new();
    let mut i: usize = 0;
    while i < v.len()
        invariant
            i <= v@.len(),
            forall|t: &T| #[trigger] f.requires((t,)),
            forall|t: &T, u: T| f.ensures((t,), u) ==> u@ == sf(t@),
            views(r@) == views(v@).map_values(sf).subrange(0, i as int),
        decreases v@.len() - i,
    {
        let c = f(&v[i]);
        let ghost before = r@;
        r.push(c);
        proof {
            assert(views(r@) =~= views(before).push(c@));
            assert(views(v@)[i as int] == v@[i as int]@);
            assert(views(v@).map_values(sf).subrange(0, i + 1) =~= views(v@).map_values(sf).subrange(0, i as int).push(
                c@,
            ));
        }
        i = i + 1;
    }
    proof {
        assert(views(v@).map_values(sf).subrange(0, v@.len() as int) =~= views(v@).map_values(sf));
    }
    r
}

/// The first card with id `id`, which is present.
fn find_node<'a>(ns: &'a Vec<SceneNode>, id: &str) -> (r: &'a SceneNode)
    requires
        node_ids_of(views(ns@)).contains(id@),
    ensures
        r@ == first_node(views(ns@), id@),
{
    let ghost all = views(ns@);
    let mut i: usize = 0;
    proof {
        assert(all.subrange(0, all.len() as int) =~= all);
        let w = choose|w: int| 0 <= w < node_ids_of(all).len() && node_ids_of(all)[w] == id@;
        assert(all[w].id == id@);
    }
    while i < ns.len()
        invariant
            i <= ns@.len(),
            all == views(ns@),
            first_node(all, id@) == first_node(all.subrange(i as int, all.len() as int), id@),
            exists|w: int| i <= w < all.len() && all[w].id == id@,
        decreases ns@.len() - i,
    {
        let ghost rest = all.subrange(i as int, all.len() as int);
        proof {
            assert(rest[0] == ns@[i as int]@);
            assert(rest.drop_first() =~= all.subrange(i + 1, all.len() as int));
        }
        if str_eq(ns[i].id.as_str(), id) {
            return &ns[i];
        }
        proof {
            let w = choose|w: int| i <= w < all.len() && all[w].id == id@;
            assert(w != i);
        }
        i = i + 1;
    }
    &ns[0]
}

/// The first group with id `id`, which is present.
fn find_group<'a>(gs: &'a Vec<SceneGroup>, id: &str) -> (r: &'a SceneGroup)
    requires
        group_ids_of(views(gs@)).contains(id@),
    ensures
        r@ == first_group(views(gs@), id@),
{
    let ghost all = views(gs@);
    let mut i: usize = 0;
    proof {
        assert(all.subrange(0, all.len() as int) =~= all);
        let w = choose|w: int| 0 <= w < group_ids_of(all).len() && group_ids_of(all)[w] == id@;
        assert(all[w].id == id@);
    }
    while i < gs.len()
        invariant
            i <= gs@.len(),
            all == views(gs@),
            first_group(all, id@) == first_group(all.subrange(i as int, all.len() as int), id@),
            exists|w: int| i <= w < all.len() && all[w].id == id@,
        decreases gs@.len() - i,
    {
        let ghost rest = all.subrange(i as int, all.len() as int);
        proof {
            assert(rest[0] == gs@[i as int]@);
            assert(rest.drop_first() =~= all.subrange(i + 1, all.len() as int));
        }
        if str_eq(gs[i].id.as_str(), id) {
            return &gs[i];
        }
        proof {
            let w = choose|w: int| i <= w < all.len() && all[w].id == id@;
            assert(w != i);
        }
        i = i + 1;
    }
    &gs[0]
}

/// The first edge with id `id`, which is present.
fn find_edge<'a>(es: &'a Vec<SceneEdge>, id: &str) -> (r: &'a SceneEdge)
    requires
        edge_ids_of(views(es@)).contains(id@),
    ensures
        r@ == first_edge(views(es@), id@),
{
    let ghost all = views(es@);
    let mut i: usize = 0;
    proof {
        assert(all.subrange(0, all.len() as int) =~= all);
        let w = choose|w: int| 0 <= w < edge_ids_of(all).len() && edge_ids_of(all)[w] == id@;
        assert(all[w].id == id@);
    }
    while i < es.len()
        invariant
            i <= es@.len(),
            all == views(es@),
            first_edge(all, id@) == first_edge(all.subrange(i as int, all.len() as int), id@),
            exists|w: int| i <= w < all.len() && all[w].id == id@,
        decreases es@.len() - i,
    {
        let ghost rest = all.subrange(i as int, all.len() as int);
        proof {
            assert(rest[0] == es@[i as int]@);
            assert(rest.drop_first() =~= all.subrange(i + 1, all.len() as int));
        }
        if str_eq(es[i].id.as_str(), id) {
            return &es[i];
        }
        proof {
            let w = choose|w: int| i <= w < all.len() && all[w].id == id@;
            assert(w != i);
        }
        i = i + 1;
    }
    &es[0]
}

/// The characters of an optional string, by reference.
pub open spec fn opt_str_at(o: &Option<String>) -> Option<Seq<char>> {
    crate::model::opt_str(*o)
}

/// The first group, in order, other than `id`.
fn find_other_group(gs: &Vec<SceneGroup>, id: &str) -> (r: Option<String>)
    ensures
        crate::model::opt_str(r) == other_group(views(gs@), id@),
{
    let ghost all = views(gs@);
    let mut i: usize = 0;
    proof {
        assert(all.subrange(0, all.len() as int) =~= all);
    }
    while i < gs.len()
        invariant
            i <= gs@.len(),
            all == views(gs@),
            other_group(all, id@) == other_group(all.subrange(i as int, all.len() as int), id@),
        decreases gs@.len() - i,
    {
        let ghost rest = all.subrange(i as int, all.len() as int);
        proof {
            assert(rest[0] == gs@[i as int]@);
            assert(rest.drop_first() =~= all.subrange(i + 1, all.len() as int));
        }
        if !str_eq(gs[i].id.as_str(), id) {
            return Some(gs[i].id.clone());
        }
        i = i + 1;
    }
    proof {
        assert(all.subrange(all.len() as int, all.len() as int) =~= Seq::<SceneGroupView>::empty());
    }
    None
}

/// The cards of `ns` whose id is among `ids`, in order.
fn nodes_among(ns: &Vec<SceneNode>, ids: &Vec<String>) -> (r: Vec<SceneNode>)
    ensures
        views(r@) == keep(views(ns@), node_id_in(strs(ids@))),
{
    let f = |n: &SceneNode| -> (b: bool)
        ensures
            b == strs(ids@).contains(n.id@),
        { contains_str(ids, n.id.as_str()) };
    keep_where(copy_all(ns), Ghost(node_id_in(strs(ids@))), f)
}

/// The position and size of each card.
fn placements_of(ns: &Vec<SceneNode>) -> (r: Vec<(Point, Size)>)
    ensures
        r@ == placements(views(ns@)),
{
    let mut r: Vec<(Point, Size)> = Vec::new();
    let mut i: usize = 0;
    while i < ns.len()
        invariant
            i <= ns@.len(),
            r@ == placements(views(ns@)).subrange(0, i as int),
        decreases ns@.len() - i,
    {
        r.push((ns[i].position, ns[i].size));
        proof {
            assert(views(ns@)[i as int] == ns@[i as int]@);
            assert(r@ =~= placements(views(ns@)).subrange(0, i + 1));
        }
        i = i + 1;
    }
    proof {
        assert(placements(views(ns@)).subrange(0, ns@.len() as int) =~= placements(views(ns@)));
    }
    r
}

/// The cards an arrangement places (see [`arranged_nodes`]).
fn place_nodes(targets: &Vec<SceneNode>, out: &Vec<(usize, Point)>, now: &str) -> (r: Vec<SceneNode>)
    ensures
        views(r@) == arranged_nodes(views(targets@), out@, now@),
{
    let mut r: Vec<SceneNode> = Vec::new();
    let mut k: usize = 0;
    proof {
        assert(views(r@) =~= Seq::<SceneNodeView>::empty());
        assert(out@.subrange(0, 0) =~= Seq::<(usize, Point)>::empty());
    }
    while k < out.len()
        invariant
            k <= out@.len(),
            views(r@) == arranged_nodes(views(targets@), out@.subrange(0, k as int), now@),
        decreases out@.len() - k,
    {
        let (i, p) = out[k];
        let ghost before = r@;
        proof {
            let sub = out@.subrange(0, k + 1);
            assert(sub.drop_last() =~= out@.subrange(0, k as int));
            assert(sub.last() == out@[k as int]);
        }
        if i < targets.len() {
            let mut n = targets[i].copy_of();
            n.position = p;
            n.updated_at = Some(now.to_owned());
            let ghost nv = n@;
            r.push(n);
            proof {
                assert(views(targets@)[i as int] == targets@[i as int]@);
                assert(views(r@) =~= views(before).push(nv));
                assert(views(before).push(nv) =~= views(before) + seq![nv]);
            }
        } else {
            proof {
                assert(views(r@) =~= views(r@) + Seq::<SceneNodeView>::empty());
            }
        }
        k = k + 1;
    }
    proof {
        assert(out@.subrange(0, out@.len() as int) =~= out@);
    }
    r
}

/// The arrangement `arrange` gives for the placements of `targets`.
fn arrange_with<L: Fn(&Vec<(Point, Size)>, Arrangement) -> Vec<(usize, Point)>>(
    arrange: &L,
    targets: &Vec<SceneNode>,
    k: Arrangement,
) -> (r: Vec<(usize, Point)>)
    requires
        arranges(*arrange),
    ensures
        r@ == (arranged_by(*arrange))(placements(views(targets@)), k),
{
    let pl = placements_of(targets);
    let out = arrange(&pl, k);
    proof {
        assert(arrange.ensures((&pl, k), out));
        let pair = choose|v: &Vec<(Point, Size)>, o: Vec<(usize, Point)>|
            v@ == pl@ && #[trigger] arrange.ensures((v, k), o);
        assert(pair.1@ == out@);
    }
    out
}

/// The bounds `frame` gives for the placements of `members`.
fn frame_with<F: Fn(&Vec<(Point, Size)>) -> Bounds>(frame: &F, members: &Vec<SceneNode>) -> (r: Bounds)
    requires
        frames(*frame),
    ensures
        r == (framed_by(*frame))(placements(views(members@))),
{
    let pl = placements_of(members);
    let b = frame(&pl);
    proof {
        assert(frame.ensures((&pl,), b));
        let pair = choose|v: &Vec<(Point, Size)>, c: Bounds| v@ == pl@ && #[trigger] frame.ensures((v,), c);
        assert(pair.1 == b);
    }
    b
}


/// A patch that only sets these parts.
fn patch_with(
    groups: Option<Vec<SceneGroup>>,
    nodes: Option<Vec<SceneNode>>,
    edges: Option<Vec<SceneEdge>>,
    selection: SceneSelection,
) -> (r: ScenePatch)
    ensures
        r@ == patch_of(opt_views(groups), opt_views(nodes), opt_views(edges), selection@),
{
    ScenePatch {
        groups,
        nodes,
        edges,
        translate_groups: None,
        remove_group_ids: None,
        remove_node_ids: None,
        remove_edge_ids: None,
        selection: Some(selection),
    }
}

/// One card as a list.
fn one_node(n: SceneNode) -> (r: Vec<SceneNode>)
    ensures
        views(r@) == seq![n@],
{
    let mut r: Vec<SceneNode> = Vec::new();
    r.push(n);
    proof {
        assert(views(r@) =~= seq![n@]);
    }
    r
}

/// One group as a list.
fn one_group(g: SceneGroup) -> (r: Vec<SceneGroup>)
    ensures
        views(r@) == seq![g@],
{
    let mut r: Vec<SceneGroup> = Vec::new();
    r.push(g);
    proof {
        assert(views(r@) =~= seq![g@]);
    }
    r
}

/// One edge as a list.
fn one_edge(e: SceneEdge) -> (r: Vec<SceneEdge>)
    ensures
        views(r@) == seq![e@],
{
    let mut r: Vec<SceneEdge> = Vec::new();
    r.push(e);
    proof {
        assert(views(r@) =~= seq![e@]);
    }
    r
}

/// A patch that upserts one card and selects it.
fn card_patch(n: SceneNode) -> (r: ScenePatch)
    ensures
        r@ == node_patch(n@),
{
    let sel = SceneSelection::Node { id: n.id.clone() };
    patch_with(None, Some(one_node(n)), None, sel)
}

/// A patch that upserts one group and selects it.
fn frame_patch(g: SceneGroup) -> (r: ScenePatch)
    ensures
        r@ == group_patch(g@),
{
    let sel = SceneSelection::Group { id: g.id.clone() };
    patch_with(Some(one_group(g)), None, None, sel)
}

/// A patch that upserts one edge and selects it.
fn link_patch(e: SceneEdge) -> (r: ScenePatch)
    ensures
        r@ == edge_patch(e@),
{
    let sel = SceneSelection::Edge { id: e.id.clone() };
    patch_with(None, None, Some(one_edge(e)), sel)
}

/// A patch that only sets the selection.
fn select_patch(selection: SceneSelection) -> (r: ScenePatch)
    ensures
        r@ == (ScenePatchView { selection: Some(selection@), ..empty_scene_patch() }),
{
    ScenePatch {
        groups: None,
        nodes: None,
        edges: None,
        translate_groups: None,
        remove_group_ids: None,
        remove_node_ids: None,
        remove_edge_ids: None,
        selection: Some(selection),
    }
}

/// The kind a wire name reads back as (see [`node_type_named`]).
fn scene_node_type(t: &str) -> (r: NodeType)
    ensures
        r == node_type_named(t@),
{
    if str_eq(t, "proposition") {
        NodeType::Proposition
    } else if str_eq(t, "decision_point") {
        NodeType::DecisionPoint
    } else if str_eq(t, "option") {
        NodeType::Option
    } else if str_eq(t, "evidence") {
        NodeType::Evidence
    } else if str_eq(t, "tradeoff") {
        NodeType::Tradeoff
    } else if str_eq(t, "blocker") {
        NodeType::Blocker
    } else if str_eq(t, "subdecision") {
        NodeType::Subdecision
    } else if str_eq(t, "task") {
        NodeType::Task
    } else if str_eq(t, "artifact") {
        NodeType::Artifact
    } else {
        NodeType::Task
    }
}

/// The status a wire name reads back as (see [`node_status_named`]).
fn scene_node_status(t: &str) -> (r: NodeStatus)
    ensures
        r == node_status_named(t@),
{
    if str_eq(t, "draft") {
        NodeStatus::Draft
    } else if str_eq(t, "viable") {
        NodeStatus::Viable
    } else if str_eq(t, "conditional") {
        NodeStatus::Conditional
    } else if str_eq(t, "infeasible") {
        NodeStatus::Infeasible
    } else if str_eq(t, "unknown") {
        NodeStatus::Unknown
    } else if str_eq(t, "selected") {
        NodeStatus::Selected
    } else if str_eq(t, "deferred") {
        NodeStatus::Deferred
    } else if str_eq(t, "complete") {
        NodeStatus::Complete
    } else {
        NodeStatus::Draft
    }
}

/// The group a render group describes (see [`group_from_render`]).
fn render_group_to_scene_group(group: &RenderGroup, now: &str) -> (r: SceneGroup)
    ensures
        r@ == group_from_render(group@, now@),
{
    proof {
        reveal_strlit("Untitled group");
    }
    SceneGroup {
        id: group.id.clone(),
        parent_group_id: None,
        title: if group.title.as_str().unicode_len() == 0 {
            "Untitled group".to_owned()
        } else {
            group.title.clone()
        },
        summary: group.summary.clone(),
        bounds: group.bounds,
        tag_ids: copy_strings(&group.tag_ids),
        z_index: group.z_index,
        collapsed: false,
        created_at: now.to_owned(),
        updated_at: now.to_owned(),
        meta: None,
    }
}

/// The card a render card describes (see [`node_from_render`]).
fn render_card_to_scene_node(card: &RenderCard, now: &str) -> (r: SceneNode)
    ensures
        r@ == node_from_render(card@, now@),
{
    let n = SceneNode {
        id: card.id.clone(),
        node_type: scene_node_type(card.node_type.as_str()),
        title: if card.title.as_str().unicode_len() == 0 {
            "Untitled node".to_owned()
        } else {
            card.title.clone()
        },
        summary: card.summary.clone(),
        detail: card.detail.clone(),
        status: scene_node_status(card.status.as_str()),
        confidence: HALF_BITS,
        evidence_refs: Vec::new(),
        child_decision_ids: Vec::new(),
        group_id: card.group_id.clone(),
        position: Point { x: card.bounds.x, y: card.bounds.y },
        size: Size { width: card.bounds.width, height: card.bounds.height },
        z_index: card.z_index,
        tag_ids: Vec::new(),
        updated_at: Some(now.to_owned()),
        meta: None,
    };
    proof {
        assert(strs(n.evidence_refs@) =~= Seq::<Seq<char>>::empty());
        assert(strs(n.child_decision_ids@) =~= Seq::<Seq<char>>::empty());
        assert(strs(n.tag_ids@) =~= Seq::<Seq<char>>::empty());
    }
    n
}


/// The ids of the group subtree of `root`, in scene order.
fn subtree_ids_in_order(scene: &Scene, root: &str) -> (r: Vec<String>)
    ensures
        strs(r@) == subtree_group_ids(scene@, root@),
{
    let sub = crate::graph::descendant_group_ids(scene, root);
    let ghost gv = views(scene.groups@);
    let ghost p = |x: Seq<char>| in_subtree(gv, root@, x);
    let ghost ids = group_ids_of(gv);
    let mut r: Vec<String> = Vec::new();
    let mut i: usize = 0;
    proof {
        assert(strs(r@) =~= Seq::<Seq<char>>::empty());
        assert(ids.subrange(0, 0) =~= Seq::<Seq<char>>::empty());
    }
    while i < scene.groups.len()
        invariant
            i <= scene.groups@.len(),
            gv == views(scene.groups@),
            ids == group_ids_of(gv),
            p == (|x: Seq<char>| in_subtree(gv, root@, x)),
            forall|x: Seq<char>| strs(sub@).contains(x) <==> crate::graph::in_group_subtree(scene.groups@, root@, x),
            strs(r@) == keep(ids.subrange(0, i as int), p),
        decreases scene.groups@.len() - i,
    {
        let g = &scene.groups[i];
        proof {
            lemma_keep_step(ids, i as int, p);
            assert(gv[i as int] == g@);
            assert(ids[i as int] == g.id@);
            lemma_subtree_views(scene.groups@, root@, g.id@);
        }
        if contains_str(&sub, g.id.as_str()) {
            let c = g.id.clone();
            let ghost before = r@;
            r.push(c);
            proof {
                lemma_strs_push(before, c);
            }
        }
        i = i + 1;
    }
    proof {
        assert(ids.subrange(0, scene.groups@.len() as int) =~= ids);
    }
    r
}

fn effect_delete_group(scene: &Scene, id: &str) -> (r: ScenePatch)
    ensures
        r@ == ({
            let rg = subtree_group_ids(scene@, id@);
            let rn = node_ids_of(keep(scene@.nodes, node_in_groups(rg)));
            ScenePatchView {
                remove_group_ids: Some(rg),
                remove_node_ids: Some(rn),
                remove_edge_ids: Some(edge_ids_of(keep(scene@.edges, edge_removed_with(rg, rn)))),
                selection: Some(SelectionView::Canvas),
                ..empty_scene_patch()
            }
        }),
{
    let rg = subtree_ids_in_order(scene, id);
    let in_removed = |n: &SceneNode| -> (b: bool)
        ensures
            b == strs(rg@).contains(n.group_id@),
        { contains_str(&rg, n.group_id.as_str()) };
    let gone_nodes = keep_where(copy_all(&scene.nodes), Ghost(node_in_groups(strs(rg@))), in_removed);
    let rn = node_ids(&gone_nodes);
    let detached = |e: &SceneEdge| -> (b: bool)
        ensures
            b == (strs(rg@).contains(e.group_id@) || strs(rn@).contains(e.source@) || strs(rn@).contains(e.target@)),
        {
            contains_str(&rg, e.group_id.as_str()) || contains_str(&rn, e.source.as_str()) || contains_str(
                &rn,
                e.target.as_str(),
            )
        };
    let gone_edges = keep_where(copy_all(&scene.edges), Ghost(edge_removed_with(strs(rg@), strs(rn@))), detached);
    let re = edge_ids(&gone_edges);
    ScenePatch {
        groups: None,
        nodes: None,
        edges: None,
        translate_groups: None,
        remove_group_ids: Some(rg),
        remove_node_ids: Some(rn),
        remove_edge_ids: Some(re),
        selection: Some(SceneSelection::Canvas),
    }
}

fn effect_delete_card(scene: &Scene, id: &String) -> (r: ScenePatch)
    ensures
        r@ == (ScenePatchView {
            remove_node_ids: Some(seq![id@]),
            remove_edge_ids: Some(edge_ids_of(keep(scene@.edges, edge_touches(id@)))),
            selection: Some(SelectionView::Canvas),
            ..empty_scene_patch()
        }),
{
    let touches = |e: &SceneEdge| -> (b: bool)
        ensures
            b == (e.source@ == id@ || e.target@ == id@),
        { str_eq(e.source.as_str(), id.as_str()) || str_eq(e.target.as_str(), id.as_str()) };
    let incident = keep_where(copy_all(&scene.edges), Ghost(edge_touches(id@)), touches);
    let mut removed: Vec<String> = Vec::new();
    removed.push(id.clone());
    proof {
        assert(strs(removed@) =~= seq![id@]);
    }
    ScenePatch {
        groups: None,
        nodes: None,
        edges: None,
        translate_groups: None,
        remove_group_ids: None,
        remove_node_ids: Some(removed),
        remove_edge_ids: Some(edge_ids(&incident)),
        selection: Some(SceneSelection::Canvas),
    }
}

fn effect_arrange<L: Fn(&Vec<(Point, Size)>, Arrangement) -> Vec<(usize, Point)>>(
    scene: &Scene,
    ids: &Vec<String>,
    k: Arrangement,
    now: &str,
    arrange: &L,
) -> (r: ScenePatch)
    requires
        arranges(*arrange),
    ensures
        r@ == ({
            let targets = targets_of(scene@, strs(ids@));
            patch_of(
                None,
                Some(arranged_nodes(targets, (arranged_by(*arrange))(placements(targets), k), now@)),
                None,
                SelectionView::Canvas,
            )
        }),
{
    let targets = nodes_among(&scene.nodes, ids);
    let out = arrange_with(arrange, &targets, k);
    let placed = place_nodes(&targets, &out, now);
    patch_with(None, Some(placed), None, SceneSelection::Canvas)
}

fn effect_duplicate<A: Fn(u64, u64) -> u64>(
    scene: &Scene,
    ids: &Vec<String>,
    delta: Point,
    now: &str,
    plus: &A,
) -> (r: ScenePatch)
    requires
        adds(*plus),
    ensures
        r@ == ({
            let nn = targets_of(scene@, strs(ids@)).map_values(node_duplicated(delta, now@, sum_by(*plus)));
            let ne = keep(scene@.edges, edge_ends_in(strs(ids@))).map_values(edge_duplicated(now@));
            patch_of(
                None,
                Some(nn),
                Some(ne),
                if nn.len() > 0 { SelectionView::Node { id: nn[0].id } } else { SelectionView::Canvas },
            )
        }),
{
    let targets = nodes_among(&scene.nodes, ids);
    let ghost f = node_duplicated(delta, now@, sum_by(*plus));
    let mut nn: Vec<SceneNode> = Vec::new();
    let mut i: usize = 0;
    while i < targets.len()
        invariant
            i <= targets@.len(),
            adds(*plus),
            f == node_duplicated(delta, now@, sum_by(*plus)),
            views(nn@) == views(targets@).map_values(f).subrange(0, i as int),
        decreases targets@.len() - i,
    {
        let t = &targets[i];
        let x = add_bits(plus, t.position.x, delta.x);
        let y = add_bits(plus, t.position.y, delta.y);
        let mut n = t.copy_of();
        let mut new_id = t.id.clone();
        push_str(&mut new_id, "-dup-");
        push_str(&mut new_id, now);
        n.id = new_id;
        n.position = Point { x, y };
        n.updated_at = Some(now.to_owned());
        let ghost before = nn@;
        let ghost nv = n@;
        nn.push(n);
        proof {
            assert(views(targets@)[i as int] == t@);
            assert(nv == f(t@));
            assert(views(nn@) =~= views(before).push(nv));
            assert(views(targets@).map_values(f).subrange(0, i + 1) =~= views(targets@).map_values(f).subrange(
                0,
                i as int,
            ).push(nv));
        }
        i = i + 1;
    }
    proof {
        assert(views(targets@).map_values(f).subrange(0, targets@.len() as int) =~= views(targets@).map_values(f));
    }
    let both_ends = |e: &SceneEdge| -> (b: bool)
        ensures
            b == (strs(ids@).contains(e.source@) && strs(ids@).contains(e.target@)),
        { contains_str(ids, e.source.as_str()) && contains_str(ids, e.target.as_str()) };
    let inner = keep_where(copy_all(&scene.edges), Ghost(edge_ends_in(strs(ids@))), both_ends);
    let dup_edge = |e: &SceneEdge| -> (d: SceneEdge)
        ensures
            d@ == (edge_duplicated(now@))(e@),
        {
            let mut d = e.copy_of();
            let mut new_id = e.id.clone();
            push_str(&mut new_id, "-dup-");
            push_str(&mut new_id, now);
            let mut new_source = e.source.clone();
            push_str(&mut new_source, "-dup-");
            push_str(&mut new_source, now);
            let mut new_target = e.target.clone();
            push_str(&mut new_target, "-dup-");
            push_str(&mut new_target, now);
            d.id = new_id;
            d.source = new_source;
            d.target = new_target;
            d.updated_at = Some(now.to_owned());
            d
        };
    let ne = map_all(&inner, Ghost(edge_duplicated(now@)), dup_edge);
    let selection = if nn.len() > 0 {
        SceneSelection::Node { id: nn[0].id.clone() }
    } else {
        SceneSelection::Canvas
    };
    proof {
        if nn.len() > 0 {
            assert(views(nn@)[0] == nn@[0]@);
        }
    }
    patch_with(None, Some(nn), Some(ne), selection)
}


fn effect_group_objects<F: Fn(&Vec<(Point, Size)>) -> Bounds>(
    scene: &Scene,
    ids: &Vec<String>,
    frame_id: &String,
    parent_group_id: &Option<String>,
    title: &Option<String>,
    bounds: Option<Bounds>,
    now: &str,
    frame: &F,
) -> (r: ScenePatch)
    requires
        frames(*frame),
    ensures
        r@ == ({
            let members = targets_of(scene@, strs(ids@));
            let fg = SceneGroupView {
                id: frame_id@,
                parent_group_id: crate::model::opt_str(*parent_group_id),
                title: match crate::model::opt_str(*title) {
                    Some(t) => t,
                    None => "Group"@,
                },
                summary: Seq::empty(),
                bounds: match bounds {
                    Some(b) => b,
                    None => (framed_by(*frame))(placements(members)),
                },
                tag_ids: seq![],
                z_index: 0,
                collapsed: false,
                created_at: now@,
                updated_at: now@,
                meta: None,
            };
            patch_of(
                Some(seq![fg] + keep(scene@.groups, group_id_in(strs(ids@))).map_values(
                    group_reparented(Some(frame_id@), now@),
                )),
                Some(members.map_values(node_regrouped(frame_id@, now@))),
                None,
                SelectionView::Group { id: frame_id@ },
            )
        }),
{
    let members = nodes_among(&scene.nodes, ids);
    let b = match bounds {
        Some(b) => b,
        None => frame_with(frame, &members),
    };
    let fg = SceneGroup {
        id: frame_id.clone(),
        parent_group_id: crate::model::copy_opt_str(parent_group_id),
        title: match title {
            Some(t) => t.clone(),
            None => "Group".to_owned(),
        },
        summary: String::new(),
        bounds: b,
        tag_ids: Vec::new(),
        z_index: 0,
        collapsed: false,
        created_at: now.to_owned(),
        updated_at: now.to_owned(),
        meta: None,
    };
    proof {
        assert(strs(fg.tag_ids@) =~= Seq::<Seq<char>>::empty());
    }
    let among = |g: &SceneGroup| -> (b: bool)
        ensures
            b == strs(ids@).contains(g.id@),
        { contains_str(ids, g.id.as_str()) };
    let children = keep_where(copy_all(&scene.groups), Ghost(group_id_in(strs(ids@))), among);
    let reparent = |g: &SceneGroup| -> (h: SceneGroup)
        ensures
            h@ == (group_reparented(Some(frame_id@), now@))(g@),
        {
            let mut h = g.copy_of();
            h.parent_group_id = Some(frame_id.clone());
            h.updated_at = now.to_owned();
            h
        };
    let moved = map_all(&children, Ghost(group_reparented(Some(frame_id@), now@)), reparent);
    let regroup = |n: &SceneNode| -> (m: SceneNode)
        ensures
            m@ == (node_regrouped(frame_id@, now@))(n@),
        {
            let mut m = n.copy_of();
            m.group_id = frame_id.clone();
            m.updated_at = Some(now.to_owned());
            m
        };
    let nodes = map_all(&members, Ghost(node_regrouped(frame_id@, now@)), regroup);
    let mut groups = one_group(fg);
    let ghost head = views(groups@);
    let mut i: usize = 0;
    while i < moved.len()
        invariant
            i <= moved@.len(),
            views(groups@) == head + views(moved@).subrange(0, i as int),
        decreases moved@.len() - i,
    {
        let c = moved[i].copy_of();
        let ghost before = groups@;
        groups.push(c);
        proof {
            assert(views(groups@) =~= views(before).push(c@));
            assert(views(moved@)[i as int] == moved@[i as int]@);
            assert(head + views(moved@).subrange(0, i + 1) =~= (head + views(moved@).subrange(0, i as int)).push(c@));
        }
        i = i + 1;
    }
    proof {
        assert(views(moved@).subrange(0, moved@.len() as int) =~= views(moved@));
    }
    patch_with(Some(groups), Some(nodes), None, SceneSelection::Group { id: frame_id.clone() })
}

fn effect_ungroup(scene: &Scene, id: &String, now: &str) -> (r: ScenePatch)
    requires
        group_ids_of(scene@.groups).contains(id@),
    ensures
        r@ == ({
            let parent = first_group(scene@.groups, id@).parent_group_id;
            let fallback = match parent {
                Some(pg) => Some(pg),
                None => other_group(scene@.groups, id@),
            };
            ScenePatchView {
                groups: Some(keep(scene@.groups, group_child_of(id@)).map_values(group_reparented(parent, now@))),
                nodes: Some(keep(scene@.nodes, node_in_group(id@)).map_values(node_rehomed(fallback, now@))),
                edges: Some(keep(scene@.edges, edge_in_group(id@)).map_values(edge_rehomed(fallback, now@))),
                remove_group_ids: Some(seq![id@]),
                selection: Some(SelectionView::Canvas),
                ..empty_scene_patch()
            }
        }),
{
    let f = find_group(&scene.groups, id.as_str());
    let parent = crate::model::copy_opt_str(&f.parent_group_id);
    let fallback = match &parent {
        Some(pg) => Some(pg.clone()),
        None => find_other_group(&scene.groups, id.as_str()),
    };
    let child_of = |g: &SceneGroup| -> (b: bool)
        ensures
            b == (crate::model::opt_str(g.parent_group_id) == Some(id@)),
        {
            match &g.parent_group_id {
                Some(pg) => str_eq(pg.as_str(), id.as_str()),
                None => false,
            }
        };
    let children = keep_where(copy_all(&scene.groups), Ghost(group_child_of(id@)), child_of);
    let reparent = |g: &SceneGroup| -> (h: SceneGroup)
        ensures
            h@ == (group_reparented(opt_str_at(&parent), now@))(g@),
        {
            let mut h = g.copy_of();
            h.parent_group_id = crate::model::copy_opt_str(&parent);
            h.updated_at = now.to_owned();
            h
        };
    let groups = map_all(&children, Ghost(group_reparented(crate::model::opt_str(parent), now@)), reparent);
    let in_frame = |n: &SceneNode| -> (b: bool)
        ensures
            b == (n.group_id@ == id@),
        { str_eq(n.group_id.as_str(), id.as_str()) };
    let members = keep_where(copy_all(&scene.nodes), Ghost(node_in_group(id@)), in_frame);
    let rehome = |n: &SceneNode| -> (m: SceneNode)
        ensures
            m@ == (node_rehomed(opt_str_at(&fallback), now@))(n@),
        {
            let mut m = n.copy_of();
            match &fallback {
                Some(fb) => {
                    m.group_id = fb.clone();
                },
                None => {},
            }
            m.updated_at = Some(now.to_owned());
            m
        };
    let nodes = map_all(&members, Ghost(node_rehomed(crate::model::opt_str(fallback), now@)), rehome);
    let edge_in_frame = |e: &SceneEdge| -> (b: bool)
        ensures
            b == (e.group_id@ == id@),
        { str_eq(e.group_id.as_str(), id.as_str()) };
    let links = keep_where(copy_all(&scene.edges), Ghost(edge_in_group(id@)), edge_in_frame);
    let rehome_edge = |e: &SceneEdge| -> (d: SceneEdge)
        ensures
            d@ == (edge_rehomed(opt_str_at(&fallback), now@))(e@),
        {
            let mut d = e.copy_of();
            match &fallback {
                Some(fb) => {
                    d.group_id = fb.clone();
                },
                None => {},
            }
            d.updated_at = Some(now.to_owned());
            d
        };
    let edges = map_all(&links, Ghost(edge_rehomed(crate::model::opt_str(fallback), now@)), rehome_edge);
    let mut removed: Vec<String> = Vec::new();
    removed.push(id.clone());
    proof {
        assert(strs(removed@) =~= seq![id@]);
    }
    ScenePatch {
        groups: Some(groups),
        nodes: Some(nodes),
        edges: Some(edges),
        translate_groups: None,
        remove_group_ids: Some(removed),
        remove_node_ids: None,
        remove_edge_ids: None,
        selection: Some(SceneSelection::Canvas),
    }
}

fn effect_set_object_group(scene: &Scene, ids: &Vec<String>, frame_id: &String, now: &str) -> (r: ScenePatch)
    ensures
        r@ == ({
            let un = targets_of(scene@, strs(ids@)).map_values(node_regrouped(frame_id@, now@));
            let ue = keep(scene@.edges, edge_id_in(strs(ids@))).map_values(edge_regrouped(frame_id@, now@));
            patch_of(
                None,
                Some(un),
                Some(ue),
                if un.len() > 0 {
                    SelectionView::Node { id: un[0].id }
                } else if ue.len() > 0 {
                    SelectionView::Edge { id: ue[0].id }
                } else {
                    SelectionView::Group { id: frame_id@ }
                },
            )
        }),
{
    let members = nodes_among(&scene.nodes, ids);
    let regroup = |n: &SceneNode| -> (m: SceneNode)
        ensures
            m@ == (node_regrouped(frame_id@, now@))(n@),
        {
            let mut m = n.copy_of();
            m.group_id = frame_id.clone();
            m.updated_at = Some(now.to_owned());
            m
        };
    let un = map_all(&members, Ghost(node_regrouped(frame_id@, now@)), regroup);
    let among = |e: &SceneEdge| -> (b: bool)
        ensures
            b == strs(ids@).contains(e.id@),
        { contains_str(ids, e.id.as_str()) };
    let links = keep_where(copy_all(&scene.edges), Ghost(edge_id_in(strs(ids@))), among);
    let regroup_edge = |e: &SceneEdge| -> (d: SceneEdge)
        ensures
            d@ == (edge_regrouped(frame_id@, now@))(e@),
        {
            let mut d = e.copy_of();
            d.group_id = frame_id.clone();
            d.updated_at = Some(now.to_owned());
            d
        };
    let ue = map_all(&links, Ghost(edge_regrouped(frame_id@, now@)), regroup_edge);
    let selection = if un.len() > 0 {
        SceneSelection::Node { id: un[0].id.clone() }
    } else if ue.len() > 0 {
        SceneSelection::Edge { id: ue[0].id.clone() }
    } else {
        SceneSelection::Group { id: frame_id.clone() }
    };
    proof {
        if un.len() > 0 {
            assert(views(un@)[0] == un@[0]@);
        }
        if ue.len() > 0 {
            assert(views(ue@)[0] == ue@[0]@);
        }
    }
    patch_with(None, Some(un), Some(ue), selection)
}


/// The bulk patch a valid edit commits (see [`effect`]).
#[verifier::spinoff_prover]
#[verifier::rlimit(60)]
fn scene_effect<
    A: Fn(u64, u64) -> u64,
    L: Fn(&Vec<(Point, Size)>, Arrangement) -> Vec<(usize, Point)>,
    F: Fn(&Vec<(Point, Size)>) -> Bounds,
>(scene: &Scene, patch: &RenderScenePatch, now: &str, geometry: &Geometry<A, L, F>) -> (r: ScenePatch)
    requires
        sound(*geometry),
        patch_errors(scene@, patch@).len() == 0,
    ensures
        r@ == effect(scene@, patch@, now@, geo(*geometry)),
{
    let ghost nk = node_ids_of(scene@.nodes);
    let ghost gk = group_ids_of(scene@.groups);
    let ghost ek = edge_ids_of(scene@.edges);
    match patch {
        RenderScenePatch::CreateGroup { group } => frame_patch(render_group_to_scene_group(group, now)),
        RenderScenePatch::DeleteGroup { id } => effect_delete_group(scene, id.as_str()),
        RenderScenePatch::MoveGroup { id, delta } => {
            let mut moves: Vec<TranslateGroup> = Vec::new();
            moves.push(TranslateGroup { group_id: id.clone(), dx: delta.x, dy: delta.y });
            proof {
                assert(views(moves@) =~= seq![TranslateGroupView { group_id: id@, dx: delta.x, dy: delta.y }]);
            }
            ScenePatch {
                groups: None,
                nodes: None,
                edges: None,
                translate_groups: Some(moves),
                remove_group_ids: None,
                remove_node_ids: None,
                remove_edge_ids: None,
                selection: Some(SceneSelection::Group { id: id.clone() }),
            }
        },
        RenderScenePatch::MoveCard { id, position } => {
            assert(nk.contains(id@));
            let mut n = find_node(&scene.nodes, id.as_str()).copy_of();
            n.position = *position;
            n.updated_at = Some(now.to_owned());
            card_patch(n)
        },
        RenderScenePatch::SetCardZIndex { id, z_index } => {
            assert(nk.contains(id@));
            let mut n = find_node(&scene.nodes, id.as_str()).copy_of();
            n.z_index = *z_index;
            n.updated_at = Some(now.to_owned());
            card_patch(n)
        },
        RenderScenePatch::EditCardText { id, field, value } => {
            assert(nk.contains(id@));
            let mut n = find_node(&scene.nodes, id.as_str()).copy_of();
            match field {
                EditField::Title => {
                    n.title = value.clone();
                },
                EditField::Summary => {
                    n.summary = value.clone();
                },
                EditField::Detail => {
                    n.detail = value.clone();
                },
            }
            n.updated_at = Some(now.to_owned());
            card_patch(n)
        },
        RenderScenePatch::CreateCard { card } => card_patch(render_card_to_scene_node(card, now)),
        RenderScenePatch::DeleteCard { id } => effect_delete_card(scene, id),
        RenderScenePatch::CreateEdge { group_id, source, target, edge_id, label } => {
            proof {
                reveal_strlit("relates");
            }
            let e = SceneEdge {
                id: edge_id.clone(),
                edge_type: EdgeType::Supports,
                source: source.clone(),
                target: target.clone(),
                label: match label {
                    Some(l) => l.clone(),
                    None => "relates".to_owned(),
                },
                rationale: String::new(),
                confidence: HALF_BITS,
                group_id: group_id.clone(),
                tag_ids: Vec::new(),
                updated_at: Some(now.to_owned()),
                meta: None,
            };
            proof {
                assert(strs(e.tag_ids@) =~= Seq::<Seq<char>>::empty());
            }
            link_patch(e)
        },
        RenderScenePatch::DeleteEdge { id } => {
            let mut removed: Vec<String> = Vec::new();
            removed.push(id.clone());
            proof {
                assert(strs(removed@) =~= seq![id@]);
            }
            ScenePatch {
                groups: None,
                nodes: None,
                edges: None,
                translate_groups: None,
                remove_group_ids: None,
                remove_node_ids: None,
                remove_edge_ids: Some(removed),
                selection: Some(SceneSelection::Canvas),
            }
        },
        RenderScenePatch::ResizeCard { id, bounds } => {
            assert(nk.contains(id@));
            let mut n = find_node(&scene.nodes, id.as_str()).copy_of();
            n.position = Point { x: bounds.x, y: bounds.y };
            n.size = Size { width: bounds.width, height: bounds.height };
            n.updated_at = Some(now.to_owned());
            card_patch(n)
        },
        RenderScenePatch::ResizeGroup { id, bounds } => {
            assert(gk.contains(id@));
            let mut g = find_group(&scene.groups, id.as_str()).copy_of();
            g.bounds = *bounds;
            g.updated_at = now.to_owned();
            frame_patch(g)
        },
        RenderScenePatch::AlignCards { ids, axis, mode } => effect_arrange(
            scene,
            ids,
            Arrangement::Align { axis: *axis, mode: *mode },
            now,
            &geometry.arrange,
        ),
        RenderScenePatch::DistributeCards { ids, axis } => effect_arrange(
            scene,
            ids,
            Arrangement::Distribute { axis: *axis },
            now,
            &geometry.arrange,
        ),
        RenderScenePatch::DuplicateObjects { ids, delta } => effect_duplicate(scene, ids, *delta, now, &geometry.plus),
        RenderScenePatch::GroupObjects { ids, frame_id, parent_group_id, title, bounds } => effect_group_objects(
            scene,
            ids,
            frame_id,
            parent_group_id,
            title,
            *bounds,
            now,
            &geometry.frame,
        ),
        RenderScenePatch::Ungroup { id } => {
            assert(gk.contains(id@));
            effect_ungroup(scene, id, now)
        },
        RenderScenePatch::SetObjectGroup { ids, frame_id } => effect_set_object_group(scene, ids, frame_id, now),
        RenderScenePatch::SetObjectTags { target_kind, id, tag_ids: wanted } => match target_kind {
            TargetKind::Frame => {
                assert(gk.contains(id@));
                let mut g = find_group(&scene.groups, id.as_str()).copy_of();
                g.tag_ids = copy_strings(wanted);
                g.updated_at = now.to_owned();
                frame_patch(g)
            },
            TargetKind::Card => {
                assert(nk.contains(id@));
                let mut n = find_node(&scene.nodes, id.as_str()).copy_of();
                n.tag_ids = copy_strings(wanted);
                n.updated_at = Some(now.to_owned());
                card_patch(n)
            },
            TargetKind::Edge => {
                assert(ek.contains(id@));
                let mut e = find_edge(&scene.edges, id.as_str()).copy_of();
                e.tag_ids = copy_strings(wanted);
                e.updated_at = Some(now.to_owned());
                link_patch(e)
            },
        },
        RenderScenePatch::Select { selection } => select_patch(selection.copy_of()),
        RenderScenePatch::Batch { .. } | RenderScenePatch::CreateTag { .. } => ScenePatch::default(),
    }
}


// ---------------------------------------------------------------------------
// Versions
// ---------------------------------------------------------------------------

proof fn lemma_weights_prefix(ops: Seq<PatchView>, i: int)
    requires
        0 <= i <= ops.len(),
    ensures
        weights(ops.subrange(0, i)) <= weights(ops),
        i < ops.len() ==> weights(ops.subrange(0, i + 1)) == weights(ops.subrange(0, i)) + weight(ops[i]),
    decreases ops.len() - i,
{
    if i < ops.len() {
        let sub = ops.subrange(0, i + 1);
        assert(sub.drop_last() =~= ops.subrange(0, i));
        assert(sub.last() == ops[i]);
        lemma_weights_prefix(ops, i + 1);
    } else {
        assert(ops.subrange(0, i) =~= ops);
    }
}

/// A successful edit bumps the scene version once per single edit it stands
/// for (a batch once per op).
pub proof fn lemma_applied_version(s: SceneView, p: PatchView, now: Seq<char>, env: OperationEnvelopeView, g: Geo)
    requires
        s.scene_version + weight(p) <= i64::MAX,
    ensures
        applied(s, p, now, env, g).errors.len() == 0 ==> applied(s, p, now, env, g).scene.scene_version
            == s.scene_version + weight(p),
    decreases p,
{
    if patch_errors(s, p).len() == 0 {
        match p {
            PatchView::Batch { ops } => {
                assert(weight(p) == weights(ops));
                lemma_batch_version(s, ops, now, env, g);
                let r = applied(s, p, now, env, g);
                assert(r.errors.len() == 0 ==> r.scene.scene_version == s.scene_version + weight(p));
            },
            PatchView::CreateTag { tag } => {
                assert(weight(p) == 1);
                let r = applied(s, p, now, env, g);
                assert(r.errors.len() == 0 ==> r.scene.scene_version == s.scene_version + weight(p));
            },
            _ => {
                assert(weight(p) == 1);
                let cp = effect(s, p, now, g);
                assert(committed(s, cp, now, g.plus).scene_version == s.scene_version + 1);
                let r = applied(s, p, now, env, g);
                assert(r.errors.len() == 0 ==> r.scene.scene_version == s.scene_version + weight(p));
            },
        }
    }
}

proof fn lemma_batch_version(s: SceneView, ops: Seq<PatchView>, now: Seq<char>, env: OperationEnvelopeView, g: Geo)
    requires
        s.scene_version + weights(ops) <= i64::MAX,
    ensures
        batch_run(s, ops, now, env, g) is Ok ==> batch_run(s, ops, now, env, g)->Ok_0.scene_version == s.scene_version
            + weights(ops),
        batch_run(s, ops, now, env, g) is Err ==> batch_run(s, ops, now, env, g)->Err_0.len() > 0,
    decreases ops,
{
    if ops.len() > 0 {
        lemma_batch_version(s, ops.drop_last(), now, env, g);
        match batch_run(s, ops.drop_last(), now, env, g) {
            Ok(cur) => {
                lemma_applied_version(cur, ops.last(), now, env, g);
            },
            Err(_) => {},
        }
    }
}


// ---------------------------------------------------------------------------
// Comparing scenes
// ---------------------------------------------------------------------------

/// Whether two `f64` bit patterns are equal numbers (see [`same_number`]).
fn number_eq(a: u64, b: u64) -> (r: bool)
    ensures
        r == same_number(a, b),
{
    let a_nan = (0x7ff0_0000_0000_0000u64 < a && a < 0x8000_0000_0000_0000u64) || 0xfff0_0000_0000_0000u64 < a;
    let b_nan = (0x7ff0_0000_0000_0000u64 < b && b < 0x8000_0000_0000_0000u64) || 0xfff0_0000_0000_0000u64 < b;
    !a_nan && !b_nan && (a == b || ((a == 0 || a == 0x8000_0000_0000_0000u64) && (b == 0
        || b == 0x8000_0000_0000_0000u64)))
}

/// Whether two lists of strings are equal.
fn strings_eq(a: &Vec<String>, b: &Vec<String>) -> (r: bool)
    ensures
        r == (strs(a@) == strs(b@)),
{
    if a.len() != b.len() {
        proof {
            assert(strs(a@).len() != strs(b@).len());
        }
        return false;
    }
    let mut i: usize = 0;
    while i < a.len()
        invariant
            i <= a@.len(),
            a@.len() == b@.len(),
            forall|j: int| 0 <= j < i ==> strs(a@)[j] == strs(b@)[j],
        decreases a@.len() - i,
    {
        if !str_eq(a[i].as_str(), b[i].as_str()) {
            proof {
                assert(strs(a@)[i as int] != strs(b@)[i as int]);
            }
            return false;
        }
        i = i + 1;
    }
    proof {
        assert(strs(a@) =~= strs(b@));
    }
    true
}

/// Whether two optional strings are equal.
fn opt_string_eq(a: &Option<String>, b: &Option<String>) -> (r: bool)
    ensures
        r == (crate::model::opt_str(*a) == crate::model::opt_str(*b)),
{
    match (a, b) {
        (Some(x), Some(y)) => str_eq(x.as_str(), y.as_str()),
        (None, None) => true,
        _ => false,
    }
}

/// Whether two optional metadata maps compare equal (see [`same_meta`]).
fn meta_same(a: &Option<ObjectMeta>, b: &Option<ObjectMeta>) -> (r: bool)
    ensures
        r == same_meta(*a, *b),
{
    match (a, b) {
        (Some(x), Some(y)) => meta_eq(x, y),
        (None, None) => true,
        _ => false,
    }
}

/// Whether two cards compare equal (see [`same_node`]).
fn node_eq(a: &SceneNode, b: &SceneNode) -> (r: bool)
    ensures
        r == same_node(a@, b@),
{
    str_eq(a.id.as_str(), b.id.as_str()) && a.node_type == b.node_type && str_eq(a.title.as_str(), b.title.as_str())
        && str_eq(a.summary.as_str(), b.summary.as_str()) && str_eq(a.detail.as_str(), b.detail.as_str())
        && a.status == b.status && number_eq(a.confidence, b.confidence) && strings_eq(
        &a.evidence_refs,
        &b.evidence_refs,
    ) && strings_eq(&a.child_decision_ids, &b.child_decision_ids) && str_eq(a.group_id.as_str(), b.group_id.as_str())
        && number_eq(a.position.x, b.position.x) && number_eq(a.position.y, b.position.y) && number_eq(
        a.size.width,
        b.size.width,
    ) && number_eq(a.size.height, b.size.height) && number_eq(a.z_index, b.z_index) && strings_eq(
        &a.tag_ids,
        &b.tag_ids,
    ) && opt_string_eq(&a.updated_at, &b.updated_at) && meta_same(&a.meta, &b.meta)
}

/// Whether two edges compare equal (see [`same_edge`]).
fn edge_eq(a: &SceneEdge, b: &SceneEdge) -> (r: bool)
    ensures
        r == same_edge(a@, b@),
{
    str_eq(a.id.as_str(), b.id.as_str()) && a.edge_type == b.edge_type && str_eq(a.source.as_str(), b.source.as_str())
        && str_eq(a.target.as_str(), b.target.as_str()) && str_eq(a.label.as_str(), b.label.as_str()) && str_eq(
        a.rationale.as_str(),
        b.rationale.as_str(),
    ) && number_eq(a.confidence, b.confidence) && str_eq(a.group_id.as_str(), b.group_id.as_str()) && strings_eq(
        &a.tag_ids,
        &b.tag_ids,
    ) && opt_string_eq(&a.updated_at, &b.updated_at) && meta_same(&a.meta, &b.meta)
}

/// Whether two groups compare equal (see [`same_group`]).
fn group_eq(a: &SceneGroup, b: &SceneGroup) -> (r: bool)
    ensures
        r == same_group(a@, b@),
{
    str_eq(a.id.as_str(), b.id.as_str()) && opt_string_eq(&a.parent_group_id, &b.parent_group_id) && str_eq(
        a.title.as_str(),
        b.title.as_str(),
    ) && str_eq(a.summary.as_str(), b.summary.as_str()) && number_eq(a.bounds.x, b.bounds.x) && number_eq(
        a.bounds.y,
        b.bounds.y,
    ) && number_eq(a.bounds.width, b.bounds.width) && number_eq(a.bounds.height, b.bounds.height) && strings_eq(
        &a.tag_ids,
        &b.tag_ids,
    ) && number_eq(a.z_index, b.z_index) && a.collapsed == b.collapsed && str_eq(
        a.created_at.as_str(),
        b.created_at.as_str(),
    ) && str_eq(a.updated_at.as_str(), b.updated_at.as_str()) && meta_same(&a.meta, &b.meta)
}

/// The last card with id `id`.
fn find_last_node<'a>(ns: &'a Vec<SceneNode>, id: &str) -> (r: Option<&'a SceneNode>)
    ensures
        match r {
            Some(n) => last_node(views(ns@), id@) == Some(n@),
            None => last_node(views(ns@), id@) is None,
        },
{
    let ghost all = views(ns@);
    let mut i: usize = ns.len();
    proof {
        assert(all.subrange(0, all.len() as int) =~= all);
    }
    while i > 0
        invariant
            i <= ns@.len(),
            all == views(ns@),
            last_node(all, id@) == last_node(all.subrange(0, i as int), id@),
        decreases i,
    {
        let ghost sub = all.subrange(0, i as int);
        proof {
            assert(sub.last() == ns@[i - 1]@);
            assert(sub.drop_last() =~= all.subrange(0, i - 1));
        }
        if str_eq(ns[i - 1].id.as_str(), id) {
            return Some(&ns[i - 1]);
        }
        i = i - 1;
    }
    None
}

/// The last edge with id `id`.
fn find_last_edge<'a>(es: &'a Vec<SceneEdge>, id: &str) -> (r: Option<&'a SceneEdge>)
    ensures
        match r {
            Some(e) => last_edge(views(es@), id@) == Some(e@),
            None => last_edge(views(es@), id@) is None,
        },
{
    let ghost all = views(es@);
    let mut i: usize = es.len();
    proof {
        assert(all.subrange(0, all.len() as int) =~= all);
    }
    while i > 0
        invariant
            i <= es@.len(),
            all == views(es@),
            last_edge(all, id@) == last_edge(all.subrange(0, i as int), id@),
        decreases i,
    {
        let ghost sub = all.subrange(0, i as int);
        proof {
            assert(sub.last() == es@[i - 1]@);
            assert(sub.drop_last() =~= all.subrange(0, i - 1));
        }
        if str_eq(es[i - 1].id.as_str(), id) {
            return Some(&es[i - 1]);
        }
        i = i - 1;
    }
    None
}

/// The last group with id `id`.
fn find_last_group<'a>(gs: &'a Vec<SceneGroup>, id: &str) -> (r: Option<&'a SceneGroup>)
    ensures
        match r {
            Some(g) => last_group(views(gs@), id@) == Some(g@),
            None => last_group(views(gs@), id@) is None,
        },
{
    let ghost all = views(gs@);
    let mut i: usize = gs.len();
    proof {
        assert(all.subrange(0, all.len() as int) =~= all);
    }
    while i > 0
        invariant
            i <= gs@.len(),
            all == views(gs@),
            last_group(all, id@) == last_group(all.subrange(0, i as int), id@),
        decreases i,
    {
        let ghost sub = all.subrange(0, i as int);
        proof {
            assert(sub.last() == gs@[i - 1]@);
            assert(sub.drop_last() =~= all.subrange(0, i - 1));
        }
        if str_eq(gs[i - 1].id.as_str(), id) {
            return Some(&gs[i - 1]);
        }
        i = i - 1;
    }
    None
}

/// A list, or none when it is empty.
fn non_empty_list<T: View>(v: Vec<T>) -> (r: Option<Vec<T>>)
    ensures
        opt_views(r) == non_empty(views(v@)),
{
    if v.len() == 0 {
        None
    } else {
        Some(v)
    }
}

/// A list of strings, or none when it is empty.
fn non_empty_strings(v: Vec<String>) -> (r: Option<Vec<String>>)
    ensures
        crate::model::opt_strs(r) == non_empty(strs(v@)),
{
    if v.len() == 0 {
        None
    } else {
        Some(v)
    }
}

/// The bulk patch that takes scene `a` to scene `b` (see [`scene_diff`]).
fn diff_scenes(a: &Scene, b: &Scene) -> (r: ScenePatch)
    ensures
        r@ == scene_diff(a@, b@),
{
    let changed_node = |n: &SceneNode| -> (c: bool)
        ensures
            c == (node_changed(views(a.nodes@)))(n@),
        {
            match find_last_node(&a.nodes, n.id.as_str()) {
                Some(o) => !node_eq(o, n),
                None => true,
            }
        };
    let nodes = keep_where(copy_all(&b.nodes), Ghost(node_changed(views(a.nodes@))), changed_node);
    let changed_edge = |e: &SceneEdge| -> (c: bool)
        ensures
            c == (edge_changed(views(a.edges@)))(e@),
        {
            match find_last_edge(&a.edges, e.id.as_str()) {
                Some(o) => !edge_eq(o, e),
                None => true,
            }
        };
    let edges = keep_where(copy_all(&b.edges), Ghost(edge_changed(views(a.edges@))), changed_edge);
    let changed_group = |g: &SceneGroup| -> (c: bool)
        ensures
            c == (group_changed(views(a.groups@)))(g@),
        {
            match find_last_group(&a.groups, g.id.as_str()) {
                Some(o) => !group_eq(o, g),
                None => true,
            }
        };
    let groups = keep_where(copy_all(&b.groups), Ghost(group_changed(views(a.groups@))), changed_group);
    let bn = node_ids(&b.nodes);
    let gone_node = |n: &SceneNode| -> (c: bool)
        ensures
            c == !strs(bn@).contains(n.id@),
        { !contains_str(&bn, n.id.as_str()) };
    let removed_nodes = keep_where(copy_all(&a.nodes), Ghost(node_not_in(strs(bn@))), gone_node);
    let be = edge_ids(&b.edges);
    let gone_edge = |e: &SceneEdge| -> (c: bool)
        ensures
            c == !strs(be@).contains(e.id@),
        { !contains_str(&be, e.id.as_str()) };
    let removed_edges = keep_where(copy_all(&a.edges), Ghost(edge_not_in(strs(be@))), gone_edge);
    let bg = group_ids(&b.groups);
    let gone_group = |g: &SceneGroup| -> (c: bool)
        ensures
            c == !strs(bg@).contains(g.id@),
        { !contains_str(&bg, g.id.as_str()) };
    let removed_groups = keep_where(copy_all(&a.groups), Ghost(group_not_in(strs(bg@))), gone_group);
    ScenePatch {
        nodes: non_empty_list(nodes),
        edges: non_empty_list(edges),
        groups: non_empty_list(groups),
        remove_node_ids: non_empty_strings(node_ids(&removed_nodes)),
        remove_edge_ids: non_empty_strings(edge_ids(&removed_edges)),
        remove_group_ids: non_empty_strings(group_ids(&removed_groups)),
        translate_groups: None,
        selection: Some(b.selection.copy_of()),
    }
}


// ---------------------------------------------------------------------------
// Applying edits
// ---------------------------------------------------------------------------

/// A batch refused by a prefix of its ops is refused with the same errors.
proof fn lemma_batch_err_extends(
    s: SceneView,
    ops: Seq<PatchView>,
    k: int,
    now: Seq<char>,
    env: OperationEnvelopeView,
    g: Geo,
)
    requires
        0 <= k <= ops.len(),
        batch_run(s, ops.subrange(0, k), now, env, g) is Err,
    ensures
        batch_run(s, ops, now, env, g) == batch_run(s, ops.subrange(0, k), now, env, g),
    decreases ops.len() - k,
{
    if k < ops.len() {
        let sub = ops.subrange(0, k + 1);
        assert(sub.drop_last() =~= ops.subrange(0, k));
        lemma_batch_err_extends(s, ops, k + 1, now, env, g);
    } else {
        assert(ops.subrange(0, k) =~= ops);
    }
}

/// The refusal of an edit: the scene unchanged, nothing committed.
fn refusal(scene: &Scene, errors: Vec<String>, envelope: OperationEnvelope) -> (r: AppliedRenderPatch)
    ensures
        r@ == refused(scene@, strs(errors@), envelope@),
{
    AppliedRenderPatch { scene: scene.copy_of(), app_patch: ScenePatch::default(), errors, envelope }
}

/// Appends a tag (stamped `now`) and bumps the version.
fn apply_create_tag(scene: &Scene, tag: &Tag, now: &str, envelope: OperationEnvelope) -> (r: AppliedRenderPatch)
    requires
        scene.scene_version < i64::MAX,
    ensures
        r@ == (AppliedView {
            scene: with_tag(scene@, tag@, now@),
            app_patch: empty_scene_patch(),
            errors: seq![],
            envelope: envelope@,
        }),
{
    let mut next = scene.copy_of();
    let mut t = tag.copy_of();
    t.updated_at = now.to_owned();
    let ghost before = next.tags@;
    let ghost tv = t@;
    next.tags.push(t);
    next.scene_version = scene.scene_version + 1;
    next.updated_at = now.to_owned();
    let errors: Vec<String> = Vec::new();
    proof {
        assert(views(next.tags@) =~= views(before).push(tv));
        assert(strs(errors@) =~= Seq::<Seq<char>>::empty());
    }
    AppliedRenderPatch { scene: next, app_patch: ScenePatch::default(), errors, envelope }
}

/// Applies `patch` to `scene` with envelope `envelope` (see [`applied`]).
#[verifier::spinoff_prover]
#[verifier::rlimit(80)]
fn apply_with_envelope<
    A: Fn(u64, u64) -> u64,
    L: Fn(&Vec<(Point, Size)>, Arrangement) -> Vec<(usize, Point)>,
    F: Fn(&Vec<(Point, Size)>) -> Bounds,
>(
    scene: &Scene,
    patch: &RenderScenePatch,
    now: &str,
    envelope: OperationEnvelope,
    geometry: &Geometry<A, L, F>,
) -> (r: AppliedRenderPatch)
    requires
        sound(*geometry),
        scene.scene_version + weight(patch@) <= i64::MAX,
    ensures
        r@ == applied(scene@, patch@, now@, envelope@, geo(*geometry)),
    decreases *patch, 1int,
{
    let errors = validate_render_patch_for_shape_scene(scene, patch);
    if errors.len() > 0 {
        return refusal(scene, errors, envelope);
    }
    match patch {
        RenderScenePatch::Batch { ops } => {
            proof {
                assert forall|i: int| 0 <= i < ops@.len() implies decreases_to!(*patch => #[trigger] ops@[i]) by {
                    assert(decreases_to!(*patch => *ops));
                    assert(decreases_to!(*ops => ops@));
                    assert(decreases_to!(ops@ => ops@[i]));
                }
            }
            apply_batch(scene, ops, now, envelope, geometry, Ghost(*patch))
        },
        RenderScenePatch::CreateTag { tag } => apply_create_tag(scene, tag, now, envelope),
        RenderScenePatch::AlignCards { ids, .. } => {
            let targets = nodes_among(&scene.nodes, ids);
            if targets.len() == 0 {
                let mut errors: Vec<String> = Vec::new();
                errors.push("No matching nodes for align-cards".to_owned());
                proof {
                    assert(strs(errors@) =~= seq!["No matching nodes for align-cards"@]);
                }
                return refusal(scene, errors, envelope);
            }
            commit_app_patch(scene, scene_effect(scene, patch, now, geometry), now, envelope, &geometry.plus)
        },
        RenderScenePatch::DistributeCards { ids, .. } => {
            let targets = nodes_among(&scene.nodes, ids);
            if targets.len() == 0 {
                let mut errors: Vec<String> = Vec::new();
                errors.push("No matching nodes for distribute-cards".to_owned());
                proof {
                    assert(strs(errors@) =~= seq!["No matching nodes for distribute-cards"@]);
                }
                return refusal(scene, errors, envelope);
            }
            commit_app_patch(scene, scene_effect(scene, patch, now, geometry), now, envelope, &geometry.plus)
        },
        _ => commit_app_patch(scene, scene_effect(scene, patch, now, geometry), now, envelope, &geometry.plus),
    }
}

/// Applies a batch's ops in turn, each nested inside `whole`.
fn apply_batch<
    A: Fn(u64, u64) -> u64,
    L: Fn(&Vec<(Point, Size)>, Arrangement) -> Vec<(usize, Point)>,
    F: Fn(&Vec<(Point, Size)>) -> Bounds,
>(
    scene: &Scene,
    ops: &Vec<RenderScenePatch>,
    now: &str,
    envelope: OperationEnvelope,
    geometry: &Geometry<A, L, F>,
    Ghost(whole): Ghost<RenderScenePatch>,
) -> (r: AppliedRenderPatch)
    requires
        sound(*geometry),
        forall|i: int| 0 <= i < ops@.len() ==> decreases_to!(whole => #[trigger] ops@[i]),
        scene.scene_version + weights(patch_views(ops@)) <= i64::MAX,
    ensures
        r@ == match batch_run(scene@, patch_views(ops@), now@, envelope@, geo(*geometry)) {
            Ok(cur) => AppliedView { scene: cur, app_patch: scene_diff(scene@, cur), errors: seq![], envelope: envelope@ },
            Err(e) => refused(scene@, e, envelope@),
        },
    decreases whole, 0int,
{
    let ghost pv = patch_views(ops@);
    let ghost g = geo(*geometry);
    let mut current = scene.copy_of();
    let mut i: usize = 0;
    proof {
        lemma_patch_views_index(ops@);
        assert(pv.subrange(0, 0) =~= Seq::<PatchView>::empty());
        lemma_weights_prefix(pv, 0);
    }
    while i < ops.len()
        invariant
            i <= ops@.len(),
            pv == patch_views(ops@),
            g == geo(*geometry),
            sound(*geometry),
            pv.len() == ops@.len(),
            forall|j: int| 0 <= j < ops@.len() ==> #[trigger] pv[j] == crate::op::patch_view(ops@[j]),
            forall|j: int| 0 <= j < ops@.len() ==> decreases_to!(whole => #[trigger] ops@[j]),
            scene.scene_version + weights(pv) <= i64::MAX,
            batch_run(scene@, pv.subrange(0, i as int), now@, envelope@, g) == Ok::<SceneView, Seq<Seq<char>>>(current@),
            current@.scene_version == scene.scene_version + weights(pv.subrange(0, i as int)),
        decreases ops@.len() - i,
    {
        proof {
            lemma_weights_prefix(pv, i as int);
            lemma_weights_prefix(pv, i + 1);
            let sub = pv.subrange(0, i + 1);
            assert(sub.drop_last() =~= pv.subrange(0, i as int));
            assert(sub.last() == pv[i as int]);
        }
        assert(decreases_to!(whole => ops@[i as int]));
        let result = apply_with_envelope(&current, &ops[i], now, envelope.copy_of(), geometry);
        if result.errors.len() > 0 {
            proof {
                lemma_batch_err_extends(scene@, pv, i + 1, now@, envelope@, g);
            }
            return refusal(scene, result.errors, envelope);
        }
        proof {
            lemma_applied_version(current@, pv[i as int], now@, envelope@, g);
        }
        current = result.scene;
        i = i + 1;
    }
    proof {
        assert(pv.subrange(0, ops@.len() as int) =~= pv);
    }
    let app_patch = diff_scenes(scene, &current);
    let errors: Vec<String> = Vec::new();
    proof {
        assert(strs(errors@) =~= Seq::<Seq<char>>::empty());
    }
    AppliedRenderPatch { scene: current, app_patch, errors, envelope }
}

/// Applies a render patch to the scene.
///
/// The patch is first validated against the scene (see [`patch_errors`]); a
/// patch with errors is refused and the scene returned unchanged. Otherwise
/// the edit is made (see [`applied`]) and, for every kind but a tag creation,
/// committed as a bulk patch (see [`committed`]). The envelope is the given
/// one, or else that of a local human edit authored against the scene's
/// current version at `now`.
pub fn apply_render_patch_to_shape_scene<
    A: Fn(u64, u64) -> u64,
    L: Fn(&Vec<(Point, Size)>, Arrangement) -> Vec<(usize, Point)>,
    F: Fn(&Vec<(Point, Size)>) -> Bounds,
>(
    scene: &Scene,
    patch: &RenderScenePatch,
    now: &str,
    envelope: Option<OperationEnvelope>,
    geometry: &Geometry<A, L, F>,
) -> (r: AppliedRenderPatch)
    requires
        sound(*geometry),
        scene.scene_version + weight(patch@) <= i64::MAX,
    ensures
        r@ == applied(
            scene@,
            patch@,
            now@,
            match envelope {
                Some(e) => e@,
                None => local_envelope(ExtendedRenderView::Render(patch@), scene.scene_version, now@),
            },
            geo(*geometry),
        ),
{
    let resolved = match envelope {
        Some(e) => e,
        None => synthesise_local_envelope(ExtendedRenderPatch::Render(patch.copy_of()), scene.scene_version, now),
    };
    apply_with_envelope(scene, patch, now, resolved, geometry)
}


// ---------------------------------------------------------------------------
// Bulk patches, group tags and comments
// ---------------------------------------------------------------------------

/// The addition used by a commit that translates nothing.
pub open spec fn unmoved() -> spec_fn(u64, u64) -> u64 {
    |a: u64, b: u64| a
}

/// A commit without translations does not depend on the addition.
pub proof fn lemma_commit_ignores_addition(
    s: SceneView,
    p: ScenePatchView,
    now: Seq<char>,
    f1: spec_fn(u64, u64) -> u64,
    f2: spec_fn(u64, u64) -> u64,
)
    requires
        p.translate_groups is None,
    ensures
        committed(s, p, now, f1) == committed(s, p, now, f2),
{
}

/// Commits a patch that translates nothing.
fn commit_still(scene: &Scene, patch: ScenePatch, now: &str, envelope: OperationEnvelope) -> (r: AppliedRenderPatch)
    requires
        patch@.translate_groups is None,
        scene.scene_version < i64::MAX,
    ensures
        r@ == (AppliedView {
            scene: committed(scene@, patch@, now@, unmoved()),
            app_patch: patch@,
            errors: seq![],
            envelope: envelope@,
        }),
{
    let keep_first = |a: u64, b: u64| -> (r: u64)
        ensures
            r == a,
        { a };
    let ghost p = patch@;
    let r = commit_app_patch(scene, patch, now, envelope, &keep_first);
    proof {
        lemma_commit_ignores_addition(scene@, p, now@, sum_by(keep_first), unmoved());
    }
    r
}

/// Scene group ids in the subtree of any of `roots`.
pub open spec fn in_any_subtree(gs: Seq<SceneGroupView>, roots: Seq<Seq<char>>, x: Seq<char>) -> bool {
    exists|k: int| 0 <= k < roots.len() && in_subtree(gs, #[trigger] roots[k], x)
}

/// The commit a bulk patch makes: its group removals widened to whole
/// subtrees, the cards of removed groups removed too, and edges in removed
/// groups or at removed cards removed too.
pub open spec fn widened(s: SceneView, p: ScenePatchView) -> ScenePatchView {
    let roots = opt_seq(p.remove_group_ids);
    let rn = opt_seq(p.remove_node_ids) + node_ids_of(
        keep(s.nodes, |n: SceneNodeView| in_any_subtree(s.groups, roots, n.group_id)),
    );
    ScenePatchView {
        groups: p.groups,
        nodes: p.nodes,
        edges: p.edges,
        translate_groups: p.translate_groups,
        remove_group_ids: non_empty(keep(group_ids_of(s.groups), |x: Seq<char>| in_any_subtree(s.groups, roots, x))),
        remove_node_ids: non_empty(rn),
        remove_edge_ids: non_empty(
            opt_seq(p.remove_edge_ids) + edge_ids_of(
                keep(
                    s.edges,
                    |e: SceneEdgeView|
                        in_any_subtree(s.groups, roots, e.group_id) || rn.contains(e.source) || rn.contains(e.target),
                ),
            ),
        ),
        selection: p.selection,
    }
}

/// The ids of the groups in the subtree of any of `roots`, each root's in turn.
fn subtrees_of(scene: &Scene, roots: &Vec<String>) -> (r: Vec<String>)
    ensures
        forall|x: Seq<char>| strs(r@).contains(x) <==> in_any_subtree(views(scene.groups@), strs(roots@), x),
{
    let ghost gv = views(scene.groups@);
    let mut r: Vec<String> = Vec::new();
    let mut k: usize = 0;
    while k < roots.len()
        invariant
            k <= roots@.len(),
            gv == views(scene.groups@),
            forall|x: Seq<char>|
                strs(r@).contains(x) <==> exists|j: int| 0 <= j < k && in_subtree(gv, #[trigger] strs(roots@)[j], x),
        decreases roots@.len() - k,
    {
        let sub = crate::graph::descendant_group_ids(scene, roots[k].as_str());
        let ghost before = strs(r@);
        crate::envelope::extend_ids(&mut r, &sub);
        proof {
            assert forall|x: Seq<char>|
                strs(r@).contains(x) <==> exists|j: int| 0 <= j < k + 1 && in_subtree(gv, #[trigger] strs(roots@)[j], x) by {
                lemma_subtree_views(scene.groups@, roots@[k as int]@, x);
                assert(strs(roots@)[k as int] == roots@[k as int]@);
                if strs(r@).contains(x) {
                    let w = choose|w: int| 0 <= w < strs(r@).len() && strs(r@)[w] == x;
                    if w < before.len() {
                        assert(before[w] == x);
                        assert(before.contains(x));
                    } else {
                        assert(strs(sub@)[w - before.len()] == x);
                        assert(strs(sub@).contains(x));
                    }
                }
                if exists|j: int| 0 <= j < k + 1 && in_subtree(gv, #[trigger] strs(roots@)[j], x) {
                    let j = choose|j: int| 0 <= j < k + 1 && in_subtree(gv, #[trigger] strs(roots@)[j], x);
                    assert(strs(r@) == before + strs(sub@));
                    if j < k {
                        assert(before.contains(x));
                        let w = choose|w: int| 0 <= w < before.len() && before[w] == x;
                        assert(strs(r@)[w] == x);
                    } else {
                        assert(crate::graph::in_group_subtree(scene.groups@, roots@[k as int]@, x));
                        assert(strs(sub@).contains(x));
                        let w = choose|w: int| 0 <= w < strs(sub@).len() && strs(sub@)[w] == x;
                        assert(strs(r@)[before.len() + w] == x);
                    }
                }
            }
        }
        k = k + 1;
    }
    r
}

/// Applies a bulk patch (see [`widened`] and [`committed`]): group removals
/// cascade to whole subtrees with their cards and edges; translations use
/// `plus`; the version is bumped once.
pub fn apply_scene_patch<A: Fn(u64, u64) -> u64>(scene: &Scene, patch: &ScenePatch, now: &str, plus: &A) -> (r: Scene)
    requires
        adds(*plus),
        scene.scene_version < i64::MAX,
    ensures
        r@ == committed(scene@, widened(scene@, patch@), now@, sum_by(*plus)),
{
    let roots = strings_or_empty(&patch.remove_group_ids);
    let removed = subtrees_of(scene, &roots);
    let ghost gv = views(scene.groups@);
    let ghost rv = strs(roots@);
    let in_removed_group = |n: &SceneNode| -> (b: bool)
        ensures
            b == in_any_subtree(views(scene.groups@), strs(roots@), n.group_id@),
        { contains_str(&removed, n.group_id.as_str()) };
    let gone_nodes = keep_where(
        copy_all(&scene.nodes),
        Ghost(|n: SceneNodeView| in_any_subtree(gv, rv, n.group_id)),
        in_removed_group,
    );
    let mut rn = strings_or_empty(&patch.remove_node_ids);
    let extra = node_ids(&gone_nodes);
    crate::envelope::extend_ids(&mut rn, &extra);
    let detached = |e: &SceneEdge| -> (b: bool)
        ensures
            b == (in_any_subtree(views(scene.groups@), strs(roots@), e.group_id@) || strs(rn@).contains(e.source@)
                || strs(rn@).contains(e.target@)),
        {
            contains_str(&removed, e.group_id.as_str()) || contains_str(&rn, e.source.as_str()) || contains_str(
                &rn,
                e.target.as_str(),
            )
        };
    let gone_edges = keep_where(
        copy_all(&scene.edges),
        Ghost(
            |e: SceneEdgeView|
                in_any_subtree(gv, rv, e.group_id) || strs(rn@).contains(e.source) || strs(rn@).contains(e.target),
        ),
        detached,
    );
    let mut re = strings_or_empty(&patch.remove_edge_ids);
    let extra_edges = edge_ids(&gone_edges);
    crate::envelope::extend_ids(&mut re, &extra_edges);
    let ghost gid_seq = group_ids_of(gv);
    let ghost pick = |x: Seq<char>| in_any_subtree(gv, rv, x);
    let mut rg: Vec<String> = Vec::new();
    let mut i: usize = 0;
    proof {
        assert(strs(rg@) =~= Seq::<Seq<char>>::empty());
        assert(gid_seq.subrange(0, 0) =~= Seq::<Seq<char>>::empty());
    }
    while i < scene.groups.len()
        invariant
            i <= scene.groups@.len(),
            gv == views(scene.groups@),
            gid_seq == group_ids_of(gv),
            pick == (|x: Seq<char>| in_any_subtree(gv, rv, x)),
            forall|x: Seq<char>| strs(removed@).contains(x) <==> in_any_subtree(gv, rv, x),
            strs(rg@) == keep(gid_seq.subrange(0, i as int), pick),
        decreases scene.groups@.len() - i,
    {
        proof {
            lemma_keep_step(gid_seq, i as int, pick);
            assert(gv[i as int] == scene.groups@[i as int]@);
            assert(gid_seq[i as int] == scene.groups@[i as int].id@);
        }
        if contains_str(&removed, scene.groups[i].id.as_str()) {
            let c = scene.groups[i].id.clone();
            let ghost before = rg@;
            rg.push(c);
            proof {
                lemma_strs_push(before, c);
            }
        }
        i = i + 1;
    }
    proof {
        assert(gid_seq.subrange(0, scene.groups@.len() as int) =~= gid_seq);
    }
    let bulk = ScenePatch {
        groups: crate::model::copy_opt_all(&patch.groups),
        nodes: crate::model::copy_opt_all(&patch.nodes),
        edges: crate::model::copy_opt_all(&patch.edges),
        translate_groups: crate::model::copy_opt_all(&patch.translate_groups),
        remove_group_ids: non_empty_strings(rg),
        remove_node_ids: non_empty_strings(rn),
        remove_edge_ids: non_empty_strings(re),
        selection: match &patch.selection {
            Some(sel) => Some(sel.copy_of()),
            None => None,
        },
    };
    let select = RenderScenePatch::Select { selection: scene.selection.copy_of() };
    let envelope = synthesise_local_envelope(ExtendedRenderPatch::Render(select), scene.scene_version, now);
    proof {
        assert(bulk@ == widened(scene@, patch@));
    }
    commit_app_patch(scene, bulk, now, envelope, plus).scene
}


/// What setting a group's tags gives: refused for an unknown group or the
/// first unknown tag, else the group takes the tags (stamped `now`) and is
/// committed and selected.
pub open spec fn group_tags_applied(s: SceneView, gid: Seq<char>, tags: Seq<Seq<char>>, now: Seq<char>) -> AppliedView {
    let env = local_envelope(
        ExtendedRenderView::Render(PatchView::Select { selection: SelectionView::Group { id: gid } }),
        s.scene_version,
        now,
    );
    if !group_ids_of(s.groups).contains(gid) {
        refused(s, seq!["Unknown group id: "@ + gid], env)
    } else {
        match first_unknown(tags, tag_ids_of(s.tags)) {
            Some(u) => refused(s, seq!["Unknown tag id: "@ + u], env),
            None => {
                let cp = group_patch(retagged_group(first_group(s.groups, gid), tags, now));
                AppliedView { scene: committed(s, cp, now, unmoved()), app_patch: cp, errors: seq![], envelope: env }
            },
        }
    }
}

/// A copy of a slice of strings.
fn copy_slice(v: &[String]) -> (r: Vec<String>)
    ensures
        strs(r@) == strs(v@),
{
    let mut r: Vec<String> = Vec::new();
    let mut i: usize = 0;
    while i < v.len()
        invariant
            i <= v@.len(),
            strs(r@) == strs(v@).subrange(0, i as int),
        decreases v@.len() - i,
    {
        let c = v[i].clone();
        let ghost before = r@;
        r.push(c);
        proof {
            lemma_strs_push(before, c);
            assert(strs(v@).subrange(0, i + 1) =~= strs(v@).subrange(0, i as int).push(c@));
        }
        i = i + 1;
    }
    proof {
        assert(strs(v@).subrange(0, v@.len() as int) =~= strs(v@));
    }
    r
}

/// Sets a group's tags (see [`group_tags_applied`]).
pub fn update_shape_scene_group_tags(scene: &Scene, group_id: &str, tag_ids: &[String], now: &str) -> (r: AppliedRenderPatch)
    requires
        scene.scene_version < i64::MAX,
    ensures
        r@ == group_tags_applied(scene@, group_id@, strs(tag_ids@), now@),
{
    let select = RenderScenePatch::Select { selection: SceneSelection::Group { id: group_id.to_owned() } };
    let envelope = synthesise_local_envelope(ExtendedRenderPatch::Render(select), scene.scene_version, now);
    let gk = group_ids(&scene.groups);
    if !contains_str(&gk, group_id) {
        let mut errors: Vec<String> = Vec::new();
        errors.push(message("Unknown group id: ", group_id));
        proof {
            assert(strs(errors@) =~= seq!["Unknown group id: "@ + group_id@]);
        }
        return refusal(scene, errors, envelope);
    }
    let wanted = copy_slice(tag_ids);
    let tk = self::tag_ids(&scene.tags);
    match find_unknown(&wanted, &tk) {
        Some(u) => {
            let mut errors: Vec<String> = Vec::new();
            errors.push(message("Unknown tag id: ", u.as_str()));
            proof {
                assert(strs(errors@) =~= seq!["Unknown tag id: "@ + u@]);
            }
            refusal(scene, errors, envelope)
        },
        None => {
            let mut g = find_group(&scene.groups, group_id).copy_of();
            g.tag_ids = copy_slice(tag_ids);
            g.updated_at = now.to_owned();
            commit_still(scene, frame_patch(g), now, envelope)
        },
    }
}

/// What a comment update gives: the new scene, the comment written (none
/// when refused) and the errors that refused it.
#[derive(Debug, PartialEq)]
pub struct AppliedCommentUpdate {
    pub scene: Scene,
    pub comment: Option<SceneComment>,
    pub errors: Vec<String>,
}

pub struct AppliedCommentView {
    pub scene: SceneView,
    pub comment: Option<SceneCommentView>,
    pub errors: Seq<Seq<char>>,
}

impl View for AppliedCommentUpdate {
    type V = AppliedCommentView;

    open spec fn view(&self) -> AppliedCommentView {
        AppliedCommentView {
            scene: self.scene@,
            comment: match self.comment {
                Some(c) => Some(c@),
                None => None,
            },
            errors: strs(self.errors@),
        }
    }
}

/// A white-space character (Unicode `White_Space`).
pub open spec fn is_white(c: char) -> bool {
    let u = c as u32;
    (9 <= u && u <= 13) || u == 32 || u == 0x85 || u == 0xa0 || u == 0x1680 || (0x2000 <= u && u <= 0x200a) || u
        == 0x2028 || u == 0x2029 || u == 0x202f || u == 0x205f || u == 0x3000
}

/// `s` without its leading white space.
pub open spec fn trim_front(s: Seq<char>) -> Seq<char>
    decreases s.len(),
{
    if s.len() > 0 && is_white(s[0]) {
        trim_front(s.drop_first())
    } else {
        s
    }
}

/// `s` without its trailing white space.
pub open spec fn trim_back(s: Seq<char>) -> Seq<char>
    decreases s.len(),
{
    if s.len() > 0 && is_white(s.last()) {
        trim_back(s.drop_last())
    } else {
        s
    }
}

/// `s` without leading or trailing white space.
pub open spec fn trimmed(s: Seq<char>) -> Seq<char> {
    trim_back(trim_front(s))
}

/// Whether `c` is white space (see [`is_white`]).
fn white(c: char) -> (r: bool)
    ensures
        r == is_white(c),
{
    let u = c as u32;
    (9 <= u && u <= 13) || u == 32 || u == 0x85 || u == 0xa0 || u == 0x1680 || (0x2000 <= u && u <= 0x200a) || u
        == 0x2028 || u == 0x2029 || u == 0x202f || u == 0x205f || u == 0x3000
}

/// `s` without leading or trailing white space (see [`trimmed`]).
fn trim(s: &str) -> (r: String)
    ensures
        r@ == trimmed(s@),
{
    let n = s.unicode_len();
    let mut i: usize = 0;
    proof {
        assert(s@.subrange(0, n as int) =~= s@);
    }
    while i < n && white(s.get_char(i))
        invariant
            i <= n,
            n == s@.len(),
            trim_front(s@) == trim_front(s@.subrange(i as int, n as int)),
        decreases n - i,
    {
        proof {
            let rest = s@.subrange(i as int, n as int);
            assert(rest[0] == s@[i as int]);
            assert(rest.drop_first() =~= s@.subrange(i + 1, n as int));
        }
        i = i + 1;
    }
    let ghost front = s@.subrange(i as int, n as int);
    proof {
        if i < n {
            assert(front[0] == s@[i as int]);
        }
        assert(trim_front(s@) == front);
        assert(front.subrange(0, front.len() as int) =~= front);
    }
    let mut j: usize = n;
    while j > i && white(s.get_char(j - 1))
        invariant
            i <= j <= n,
            n == s@.len(),
            front == s@.subrange(i as int, n as int),
            trim_back(front) == trim_back(s@.subrange(i as int, j as int)),
        decreases j,
    {
        proof {
            let part = s@.subrange(i as int, j as int);
            assert(part.last() == s@[j - 1]);
            assert(part.drop_last() =~= s@.subrange(i as int, j - 1));
        }
        j = j - 1;
    }
    proof {
        let part = s@.subrange(i as int, j as int);
        if j > i {
            assert(part.last() == s@[j - 1]);
        }
    }
    s.substring_char(i, j).to_owned()
}

/// What adding a comment gives: refused when the trimmed body is empty or the
/// target is not in the scene; otherwise a comment by `human`, id
/// `renderer-comment-{now}`, trimmed body, unresolved, is put first and the
/// version bumped.
pub open spec fn comment_added(s: SceneView, target: SelectionView, body: Seq<char>, now: Seq<char>) -> AppliedCommentView {
    let t = trimmed(body);
    if t.len() == 0 {
        AppliedCommentView { scene: s, comment: None, errors: seq!["Comment body is required"@] }
    } else if selection_errors(s, target).len() > 0 {
        AppliedCommentView { scene: s, comment: None, errors: selection_errors(s, target) }
    } else {
        let c = SceneCommentView {
            id: "renderer-comment-"@ + now,
            target,
            body: t,
            author: "human"@,
            resolved: false,
            created_at: now,
            updated_at: now,
        };
        AppliedCommentView {
            scene: SceneView {
                scene_version: (s.scene_version + 1) as i64,
                comments: seq![c] + s.comments,
                updated_at: now,
                ..s
            },
            comment: Some(c),
            errors: seq![],
        }
    }
}

/// Adds a comment (see [`comment_added`]).
pub fn add_shape_scene_comment(scene: &Scene, target: &SceneSelection, body: &str, now: &str) -> (r: AppliedCommentUpdate)
    requires
        scene.scene_version < i64::MAX,
    ensures
        r@ == comment_added(scene@, target@, body@, now@),
{
    let t = trim(body);
    if t.as_str().unicode_len() == 0 {
        let mut errors: Vec<String> = Vec::new();
        errors.push("Comment body is required".to_owned());
        proof {
            assert(strs(errors@) =~= seq!["Comment body is required"@]);
        }
        return AppliedCommentUpdate { scene: scene.copy_of(), comment: None, errors };
    }
    let selection_errors = validate_scene_selection(scene, target);
    if selection_errors.len() > 0 {
        return AppliedCommentUpdate { scene: scene.copy_of(), comment: None, errors: selection_errors };
    }
    let comment = SceneComment {
        id: message("renderer-comment-", now),
        target: target.copy_of(),
        body: t,
        author: "human".to_owned(),
        resolved: false,
        created_at: now.to_owned(),
        updated_at: now.to_owned(),
    };
    let mut comments: Vec<SceneComment> = Vec::new();
    comments.push(comment.copy_of());
    let ghost head = views(comments@);
    let mut i: usize = 0;
    while i < scene.comments.len()
        invariant
            i <= scene.comments@.len(),
            views(comments@) == head + views(scene.comments@).subrange(0, i as int),
        decreases scene.comments@.len() - i,
    {
        let c = scene.comments[i].copy_of();
        let ghost before = comments@;
        comments.push(c);
        proof {
            assert(views(comments@) =~= views(before).push(c@));
            assert(views(scene.comments@)[i as int] == scene.comments@[i as int]@);
            assert(head + views(scene.comments@).subrange(0, i + 1) =~= (head + views(scene.comments@).subrange(
                0,
                i as int,
            )).push(c@));
        }
        i = i + 1;
    }
    proof {
        assert(views(scene.comments@).subrange(0, scene.comments@.len() as int) =~= views(scene.comments@));
        assert(head =~= seq![comment@]);
    }
    let mut next = scene.copy_of();
    next.scene_version = scene.scene_version + 1;
    next.comments = comments;
    next.updated_at = now.to_owned();
    let errors: Vec<String> = Vec::new();
    proof {
        assert(strs(errors@) =~= Seq::<Seq<char>>::empty());
    }
    AppliedCommentUpdate { scene: next, comment: Some(comment), errors }
}

/// The first comment with id `id`, if any.
pub open spec fn first_comment(cs: Seq<SceneCommentView>, id: Seq<char>) -> Option<SceneCommentView>
    decreases cs.len(),
{
    if cs.len() == 0 {
        None
    } else if cs[0].id == id {
        Some(cs[0])
    } else {
        first_comment(cs.drop_first(), id)
    }
}

/// What updating a comment gives: refused when no comment has the id;
/// otherwise the first such comment takes the new body and resolved flag
/// where given, stamped `now`, and replaces every comment of that id; the
/// version is bumped.
pub open spec fn comment_updated(
    s: SceneView,
    id: Seq<char>,
    body: Option<Seq<char>>,
    resolved: Option<bool>,
    now: Seq<char>,
) -> AppliedCommentView {
    match first_comment(s.comments, id) {
        None => AppliedCommentView { scene: s, comment: None, errors: seq!["Comment not found: "@ + id] },
        Some(c) => {
            let u = SceneCommentView {
                body: match body {
                    Some(b) => b,
                    None => c.body,
                },
                resolved: match resolved {
                    Some(v) => v,
                    None => c.resolved,
                },
                updated_at: now,
                ..c
            };
            AppliedCommentView {
                scene: SceneView {
                    scene_version: (s.scene_version + 1) as i64,
                    comments: s.comments.map_values(|x: SceneCommentView| if x.id == id { u } else { x }),
                    updated_at: now,
                    ..s
                },
                comment: Some(u),
                errors: seq![],
            }
        },
    }
}

/// The first comment with id `id`.
fn find_comment<'a>(cs: &'a Vec<SceneComment>, id: &str) -> (r: Option<&'a SceneComment>)
    ensures
        match r {
            Some(c) => first_comment(views(cs@), id@) == Some(c@),
            None => first_comment(views(cs@), id@) is None,
        },
{
    let ghost all = views(cs@);
    let mut i: usize = 0;
    proof {
        assert(all.subrange(0, all.len() as int) =~= all);
    }
    while i < cs.len()
        invariant
            i <= cs@.len(),
            all == views(cs@),
            first_comment(all, id@) == first_comment(all.subrange(i as int, all.len() as int), id@),
        decreases cs@.len() - i,
    {
        let ghost rest = all.subrange(i as int, all.len() as int);
        proof {
            assert(rest[0] == cs@[i as int]@);
            assert(rest.drop_first() =~= all.subrange(i + 1, all.len() as int));
        }
        if str_eq(cs[i].id.as_str(), id) {
            return Some(&cs[i]);
        }
        i = i + 1;
    }
    proof {
        assert(all.subrange(all.len() as int, all.len() as int) =~= Seq::<SceneCommentView>::empty());
    }
    None
}

/// Updates a comment's body and resolved flag (see [`comment_updated`]).
pub fn update_shape_scene_comment(
    scene: &Scene,
    comment_id: &str,
    body: Option<&str>,
    resolved: Option<bool>,
    now: &str,
) -> (r: AppliedCommentUpdate)
    requires
        scene.scene_version < i64::MAX,
    ensures
        r@ == comment_updated(
            scene@,
            comment_id@,
            match body {
                Some(b) => Some(b@),
                None => None,
            },
            resolved,
            now@,
        ),
{
    let current = match find_comment(&scene.comments, comment_id) {
        Some(c) => c.copy_of(),
        None => {
            let mut errors: Vec<String> = Vec::new();
            errors.push(message("Comment not found: ", comment_id));
            proof {
                assert(strs(errors@) =~= seq!["Comment not found: "@ + comment_id@]);
            }
            return AppliedCommentUpdate { scene: scene.copy_of(), comment: None, errors };
        },
    };
    let mut updated = current;
    match body {
        Some(b) => {
            updated.body = b.to_owned();
        },
        None => {},
    }
    match resolved {
        Some(v) => {
            updated.resolved = v;
        },
        None => {},
    }
    updated.updated_at = now.to_owned();
    let ghost uv = updated@;
    let ghost f = |x: SceneCommentView| if x.id == comment_id@ { uv } else { x };
    let mut comments: Vec<SceneComment> = Vec::new();
    let mut i: usize = 0;
    while i < scene.comments.len()
        invariant
            i <= scene.comments@.len(),
            uv == updated@,
            f == (|x: SceneCommentView| if x.id == comment_id@ { uv } else { x }),
            views(comments@) == views(scene.comments@).map_values(f).subrange(0, i as int),
        decreases scene.comments@.len() - i,
    {
        let c = if str_eq(scene.comments[i].id.as_str(), comment_id) {
            updated.copy_of()
        } else {
            scene.comments[i].copy_of()
        };
        let ghost before = comments@;
        comments.push(c);
        proof {
            assert(views(scene.comments@)[i as int] == scene.comments@[i as int]@);
            assert(views(comments@) =~= views(before).push(c@));
            assert(views(scene.comments@).map_values(f).subrange(0, i + 1) =~= views(scene.comments@).map_values(
                f,
            ).subrange(0, i as int).push(c@));
        }
        i = i + 1;
    }
    proof {
        assert(views(scene.comments@).map_values(f).subrange(0, scene.comments@.len() as int) =~= views(
            scene.comments@,
        ).map_values(f));
    }
    let mut next = scene.copy_of();
    next.scene_version = scene.scene_version + 1;
    next.comments = comments;
    next.updated_at = now.to_owned();
    let errors: Vec<String> = Vec::new();
    proof {
        assert(strs(errors@) =~= Seq::<Seq<char>>::empty());
    }
    AppliedCommentUpdate { scene: next, comment: Some(updated), errors }
}


// ---------------------------------------------------------------------------
// Laws
// ---------------------------------------------------------------------------

proof fn lemma_translate_keeps_ids(
    gs: Seq<SceneGroupView>,
    ns: Seq<SceneNodeView>,
    ts: Seq<TranslateGroupView>,
    now: Seq<char>,
    plus: spec_fn(u64, u64) -> u64,
)
    ensures
        translate_all(gs, ns, ts, now, plus).0.len() == gs.len(),
        translate_all(gs, ns, ts, now, plus).1.len() == ns.len(),
        forall|i: int| 0 <= i < gs.len() ==> #[trigger] translate_all(gs, ns, ts, now, plus).0[i].id == gs[i].id,
        forall|i: int| 0 <= i < ns.len() ==> #[trigger] translate_all(gs, ns, ts, now, plus).1[i].id == ns[i].id,
    decreases ts.len(),
{
    if ts.len() > 0 {
        lemma_translate_keeps_ids(gs, ns, ts.drop_last(), now, plus);
    }
}

proof fn lemma_same_ids_unique_groups(a: Seq<SceneGroupView>, b: Seq<SceneGroupView>)
    requires
        crate::graph::unique_keys::<SceneGroup>(a),
        a.len() == b.len(),
        forall|i: int| 0 <= i < a.len() ==> #[trigger] b[i].id == a[i].id,
    ensures
        crate::graph::unique_keys::<SceneGroup>(b),
{
    assert forall|i: int, j: int| 0 <= i < j < b.len() implies SceneGroup::key_of(#[trigger] b[i]) != SceneGroup::key_of(
        #[trigger] b[j],
    ) by {
        assert(SceneGroup::key_of(a[i]) != SceneGroup::key_of(a[j]));
    }
}

proof fn lemma_same_ids_unique_nodes(a: Seq<SceneNodeView>, b: Seq<SceneNodeView>)
    requires
        crate::graph::unique_keys::<SceneNode>(a),
        a.len() == b.len(),
        forall|i: int| 0 <= i < a.len() ==> #[trigger] b[i].id == a[i].id,
    ensures
        crate::graph::unique_keys::<SceneNode>(b),
{
    assert forall|i: int, j: int| 0 <= i < j < b.len() implies SceneNode::key_of(#[trigger] b[i]) != SceneNode::key_of(
        #[trigger] b[j],
    ) by {
        assert(SceneNode::key_of(a[i]) != SceneNode::key_of(a[j]));
    }
}

/// After any commit, every card belongs to a group of the scene, and every
/// edge belongs to a group of the scene and joins two cards of the scene.
pub proof fn lemma_commit_keeps_references(s: SceneView, p: ScenePatchView, now: Seq<char>, plus: spec_fn(u64, u64) -> u64)
    ensures
        forall|i: int|
            0 <= i < committed(s, p, now, plus).nodes.len() ==> group_ids_of(committed(s, p, now, plus).groups).contains(
                (#[trigger] committed(s, p, now, plus).nodes[i]).group_id,
            ),
        forall|i: int|
            0 <= i < committed(s, p, now, plus).edges.len() ==> group_ids_of(committed(s, p, now, plus).groups).contains(
                (#[trigger] committed(s, p, now, plus).edges[i]).group_id,
            ) && node_ids_of(committed(s, p, now, plus).nodes).contains(committed(s, p, now, plus).edges[i].source)
                && node_ids_of(committed(s, p, now, plus).nodes).contains(committed(s, p, now, plus).edges[i].target),
{
    let (gs, ns) = translate_all(upserted_groups(s, p), upserted_nodes(s, p), opt_seq(p.translate_groups), now, plus);
    let nodes = keep(ns, node_in_groups(group_ids_of(gs)));
    crate::graph::lemma_keep_members(ns, node_in_groups(group_ids_of(gs)));
    crate::graph::lemma_keep_members(upserted_edges(s, p), edge_live(group_ids_of(gs), node_ids_of(nodes)));
}

/// After any commit, no two groups, no two cards and no two edges of the
/// scene share an id, whatever the scene and the patch held before.
pub proof fn lemma_commit_ids_unique(s: SceneView, p: ScenePatchView, now: Seq<char>, plus: spec_fn(u64, u64) -> u64)
    ensures
        crate::graph::unique_keys::<SceneGroup>(committed(s, p, now, plus).groups),
        crate::graph::unique_keys::<SceneNode>(committed(s, p, now, plus).nodes),
        crate::graph::unique_keys::<SceneEdge>(committed(s, p, now, plus).edges),
{
    let empty_g: Seq<SceneGroupView> = seq![];
    let empty_n: Seq<SceneNodeView> = seq![];
    let empty_e: Seq<SceneEdgeView> = seq![];
    // Groups.
    let g0 = om_set_all::<SceneGroup>(empty_g, keep(s.groups, group_not_in(opt_seq(p.remove_group_ids))));
    crate::graph::lemma_set_all_unique::<SceneGroup>(empty_g, keep(s.groups, group_not_in(opt_seq(p.remove_group_ids))));
    crate::graph::lemma_set_all_unique::<SceneGroup>(g0, opt_seq(p.groups));
    // Cards.
    let n0 = om_set_all::<SceneNode>(empty_n, s.nodes);
    crate::graph::lemma_set_all_unique::<SceneNode>(empty_n, s.nodes);
    crate::graph::lemma_keep_unique::<SceneNode>(n0, node_not_in(opt_seq(p.remove_node_ids)));
    crate::graph::lemma_set_all_unique::<SceneNode>(keep(n0, node_not_in(opt_seq(p.remove_node_ids))), opt_seq(p.nodes));
    // Translation keeps ids.
    let ug = upserted_groups(s, p);
    let un = upserted_nodes(s, p);
    let (gs, ns) = translate_all(ug, un, opt_seq(p.translate_groups), now, plus);
    lemma_translate_keeps_ids(ug, un, opt_seq(p.translate_groups), now, plus);
    lemma_same_ids_unique_groups(ug, gs);
    lemma_same_ids_unique_nodes(un, ns);
    crate::graph::lemma_keep_unique::<SceneNode>(ns, node_in_groups(group_ids_of(gs)));
    // Edges.
    let e0 = om_set_all::<SceneEdge>(empty_e, s.edges);
    crate::graph::lemma_set_all_unique::<SceneEdge>(empty_e, s.edges);
    crate::graph::lemma_keep_unique::<SceneEdge>(e0, edge_not_in(opt_seq(p.remove_edge_ids)));
    crate::graph::lemma_set_all_unique::<SceneEdge>(keep(e0, edge_not_in(opt_seq(p.remove_edge_ids))), opt_seq(p.edges));
    let nodes = keep(ns, node_in_groups(group_ids_of(gs)));
    crate::graph::lemma_keep_unique::<SceneEdge>(upserted_edges(s, p), edge_live(group_ids_of(gs), node_ids_of(nodes)));
}

/// An edit that is refused (whatever the reason: validation, or an op of a
/// batch) leaves the scene exactly as it was and commits nothing; an edit that
/// is not refused reports no errors.
pub proof fn lemma_refusal_changes_nothing(s: SceneView, p: PatchView, now: Seq<char>, env: OperationEnvelopeView, g: Geo)
    ensures
        applied(s, p, now, env, g).errors.len() > 0 ==> applied(s, p, now, env, g).scene == s
            && applied(s, p, now, env, g).app_patch == empty_scene_patch(),
        patch_errors(s, p).len() > 0 ==> applied(s, p, now, env, g).errors == patch_errors(s, p),
        applied(s, p, now, env, g).envelope == env,
{
}

/// The errors of the first op refused along the run of `ops` from `s`, each
/// op applied to the scene the ones before it left; `None` when none is
/// refused.
pub open spec fn first_refusal(s: SceneView, ops: Seq<PatchView>, now: Seq<char>, env: OperationEnvelopeView, g: Geo) -> Option<
    Seq<Seq<char>>,
>
    decreases ops.len(),
{
    if ops.len() == 0 {
        None
    } else {
        let r = applied(s, ops[0], now, env, g);
        if r.errors.len() > 0 {
            Some(r.errors)
        } else {
            first_refusal(r.scene, ops.drop_first(), now, env, g)
        }
    }
}

/// The scene at the end of the run of `ops` from `s` (when none is refused).
pub open spec fn run_end(s: SceneView, ops: Seq<PatchView>, now: Seq<char>, env: OperationEnvelopeView, g: Geo) -> SceneView
    decreases ops.len(),
{
    if ops.len() == 0 {
        s
    } else {
        run_end(applied(s, ops[0], now, env, g).scene, ops.drop_first(), now, env, g)
    }
}

proof fn lemma_run_snoc(s: SceneView, ops: Seq<PatchView>, now: Seq<char>, env: OperationEnvelopeView, g: Geo)
    requires
        ops.len() > 0,
    ensures
        first_refusal(s, ops, now, env, g) == match first_refusal(s, ops.drop_last(), now, env, g) {
            Some(e) => Some(e),
            None => {
                let r = applied(run_end(s, ops.drop_last(), now, env, g), ops.last(), now, env, g);
                if r.errors.len() > 0 {
                    Some(r.errors)
                } else {
                    None
                }
            },
        },
        first_refusal(s, ops.drop_last(), now, env, g) is None && first_refusal(s, ops, now, env, g) is None
            ==> run_end(s, ops, now, env, g) == applied(
            run_end(s, ops.drop_last(), now, env, g),
            ops.last(),
            now,
            env,
            g,
        ).scene,
    decreases ops.len(),
{
    if ops.len() == 1 {
        assert(ops.drop_last() =~= Seq::<PatchView>::empty());
        assert(ops.drop_first() =~= Seq::<PatchView>::empty());
        assert(ops[0] == ops.last());
    } else {
        let r = applied(s, ops[0], now, env, g);
        let rest = ops.drop_first();
        assert(rest.drop_last() =~= ops.drop_last().drop_first());
        assert(ops.drop_last()[0] == ops[0]);
        assert(rest.last() == ops.last());
        if r.errors.len() == 0 {
            lemma_run_snoc(r.scene, rest, now, env, g);
        }
    }
}

proof fn lemma_batch_run(s: SceneView, ops: Seq<PatchView>, now: Seq<char>, env: OperationEnvelopeView, g: Geo)
    ensures
        batch_run(s, ops, now, env, g) == match first_refusal(s, ops, now, env, g) {
            Some(e) => Err::<SceneView, Seq<Seq<char>>>(e),
            None => Ok(run_end(s, ops, now, env, g)),
        },
    decreases ops.len(),
{
    if ops.len() > 0 {
        lemma_batch_run(s, ops.drop_last(), now, env, g);
        lemma_run_snoc(s, ops, now, env, g);
    }
}

/// A batch is all or nothing: applied to the scene each op before it left,
/// the first op that is refused has the whole batch refused with that op's
/// errors, the scene unchanged and nothing committed (the earlier ops
/// dropped); when none is refused the batch leaves the scene the last op
/// left, with no errors.
pub proof fn lemma_batch_all_or_nothing(
    s: SceneView,
    ops: Seq<PatchView>,
    now: Seq<char>,
    env: OperationEnvelopeView,
    g: Geo,
)
    requires
        patch_errors(s, PatchView::Batch { ops }).len() == 0,
    ensures
        applied(s, PatchView::Batch { ops }, now, env, g) == match first_refusal(s, ops, now, env, g) {
            Some(e) => refused(s, e, env),
            None => AppliedView {
                scene: run_end(s, ops, now, env, g),
                app_patch: scene_diff(s, run_end(s, ops, now, env, g)),
                errors: seq![],
                envelope: env,
            },
        },
{
    lemma_batch_run(s, ops, now, env, g);
}


/// `keep` with a test every entry passes keeps everything.
proof fn lemma_keep_all<A>(s: Seq<A>, p: spec_fn(A) -> bool)
    requires
        forall|x: A| #[trigger] p(x),
    ensures
        keep(s, p) == s,
    decreases s.len(),
{
    if s.len() > 0 {
        lemma_keep_all(s.drop_last(), p);
        assert(s.drop_last().push(s.last()) =~= s);
    }
}

/// `first_node` is the card at the first position with that id.
proof fn lemma_first_node(ns: Seq<SceneNodeView>, id: Seq<char>)
    requires
        node_ids_of(ns).contains(id),
    ensures
        exists|j: int|
            0 <= j < ns.len() && ns[j].id == id && (forall|k: int| 0 <= k < j ==> (#[trigger] ns[k]).id != id)
                && first_node(ns, id) == ns[j],
    decreases ns.len(),
{
    if ns[0].id != id {
        let w = choose|w: int| 0 <= w < node_ids_of(ns).len() && node_ids_of(ns)[w] == id;
        assert(node_ids_of(ns.drop_first())[w - 1] == id);
        lemma_first_node(ns.drop_first(), id);
        let j = choose|j: int|
            0 <= j < ns.drop_first().len() && ns.drop_first()[j].id == id && (forall|k: int|
                0 <= k < j ==> (#[trigger] ns.drop_first()[k]).id != id) && first_node(ns.drop_first(), id)
                == ns.drop_first()[j];
        assert forall|k: int| 0 <= k < j + 1 implies (#[trigger] ns[k]).id != id by {
            if k > 0 {
                assert(ns[k] == ns.drop_first()[k - 1]);
            }
        }
        assert(ns[j + 1] == ns.drop_first()[j]);
    } else {
        assert(first_node(ns, id) == ns[0]);
    }
}

/// A `set` of a list holds an entry of each key the list has.
proof fn lemma_set_all_has_key<T: Keyed>(s: Seq<T::V>, vs: Seq<T::V>, k: Seq<char>)
    requires
        exists|j: int| 0 <= j < vs.len() && T::key_of(#[trigger] vs[j]) == k,
    ensures
        exists|e: T::V| om_set_all::<T>(s, vs).contains(e) && T::key_of(e) == k,
    decreases vs.len(),
{
    let init = vs.drop_last();
    if T::key_of(vs.last()) == k {
        crate::graph::lemma_set_holds::<T>(om_set_all::<T>(s, init), vs.last());
    } else {
        let j = choose|j: int| 0 <= j < vs.len() && T::key_of(#[trigger] vs[j]) == k;
        assert(init[j] == vs[j]);
        lemma_set_all_has_key::<T>(s, init, k);
        let e = choose|e: T::V| om_set_all::<T>(s, init).contains(e) && T::key_of(e) == k;
        crate::graph::lemma_set_keeps_other::<T>(om_set_all::<T>(s, init), vs.last(), e);
    }
}

/// The card `n` a commit of a one-card upsert leaves: every card of the
/// result with its id is `n`, and `n` is among the result when its group is
/// a group of the scene.
proof fn lemma_commit_one_card(s: SceneView, n: SceneNodeView, now: Seq<char>, plus: spec_fn(u64, u64) -> u64)
    ensures
        ({
            let r = committed(s, node_patch(n), now, plus);
            &&& forall|k: int| 0 <= k < r.nodes.len() && (#[trigger] r.nodes[k]).id == n.id ==> r.nodes[k] == n
            &&& group_ids_of(s.groups).contains(n.group_id) ==> r.nodes.contains(n)
        }),
{
    let p = node_patch(n);
    let r = committed(s, p, now, plus);
    let d = om_set_all::<SceneNode>(seq![], s.nodes);
    crate::graph::lemma_set_all_unique::<SceneNode>(seq![], s.nodes);
    lemma_keep_all(d, node_not_in(seq![]));
    assert(opt_seq(p.nodes) =~= seq![n]);
    let un = upserted_nodes(s, p);
    assert(opt_seq(p.remove_node_ids) =~= Seq::<Seq<char>>::empty());
    assert(keep(d, node_not_in(opt_seq(p.remove_node_ids))) == d);
    assert(seq![n].drop_last() =~= Seq::<SceneNodeView>::empty());
    assert(om_set_all::<SceneNode>(d, seq![n].drop_last()) == d);
    assert(un == crate::graph::om_set::<SceneNode>(d, n));
    crate::graph::lemma_set_unique::<SceneNode>(d, n);
    crate::graph::lemma_set_holds::<SceneNode>(d, n);
    lemma_keep_all(s.groups, group_not_in(seq![]));
    let gs = upserted_groups(s, p);
    assert(gs == om_set_all::<SceneGroup>(seq![], s.groups));
    assert(opt_seq(p.translate_groups) =~= Seq::<TranslateGroupView>::empty());
    let live = node_in_groups(group_ids_of(gs));
    assert(r.nodes == keep(un, live));
    crate::graph::lemma_keep_members(un, live);
    assert forall|k: int| 0 <= k < r.nodes.len() && (#[trigger] r.nodes[k]).id == n.id implies r.nodes[k] == n by {
        assert(un.contains(r.nodes[k]));
        let w = choose|w: int| 0 <= w < un.len() && un[w] == r.nodes[k];
        let v = choose|v: int| 0 <= v < un.len() && un[v] == n;
        if w != v {
            if w < v {
                assert(SceneNode::key_of(un[w]) != SceneNode::key_of(un[v]));
            } else {
                assert(SceneNode::key_of(un[v]) != SceneNode::key_of(un[w]));
            }
        }
    }
    if group_ids_of(s.groups).contains(n.group_id) {
        let j = choose|j: int| 0 <= j < group_ids_of(s.groups).len() && group_ids_of(s.groups)[j] == n.group_id;
        assert(SceneGroup::key_of(s.groups[j]) == n.group_id);
        lemma_set_all_has_key::<SceneGroup>(seq![], s.groups, n.group_id);
        let e = choose|e: SceneGroupView| gs.contains(e) && SceneGroup::key_of(e) == n.group_id;
        let q = choose|q: int| 0 <= q < gs.len() && gs[q] == e;
        assert(group_ids_of(gs)[q] == n.group_id);
        crate::graph::lemma_keep_keeps(un, live, n);
    }
}

/// The card edit `f` applied to the first card of `s` with id `id` is the
/// only card with that id in `r`, and is in `r` when its group is a group of
/// `s`.
pub open spec fn card_edited(s: SceneView, r: SceneView, id: Seq<char>, f: spec_fn(SceneNodeView) -> SceneNodeView) -> bool {
    exists|j: int|
        #![trigger s.nodes[j]]
        0 <= j < s.nodes.len() && s.nodes[j].id == id && (forall|k: int| 0 <= k < j ==> (#[trigger] s.nodes[k]).id != id)
            && (forall|k: int| 0 <= k < r.nodes.len() && (#[trigger] r.nodes[k]).id == id ==> r.nodes[k] == f(s.nodes[j]))
            && (group_ids_of(s.groups).contains(s.nodes[j].group_id) ==> r.nodes.contains(f(s.nodes[j])))
}

/// An edit that commits `f` of the first card with id `id` leaves
/// [`card_edited`].
#[verifier::spinoff_prover]
proof fn lemma_card_edit_via(
    s: SceneView,
    r: SceneView,
    id: Seq<char>,
    f: spec_fn(SceneNodeView) -> SceneNodeView,
    now: Seq<char>,
    plus: spec_fn(u64, u64) -> u64,
)
    requires
        node_ids_of(s.nodes).contains(id),
        f(first_node(s.nodes, id)).id == id,
        f(first_node(s.nodes, id)).group_id == first_node(s.nodes, id).group_id,
        r == committed(s, node_patch(f(first_node(s.nodes, id))), now, plus),
    ensures
        card_edited(s, r, id, f),
{
    lemma_first_node(s.nodes, id);
    let n = f(first_node(s.nodes, id));
    lemma_commit_one_card(s, n, now, plus);
    let j = choose|j: int|
        0 <= j < s.nodes.len() && s.nodes[j].id == id && (forall|k: int| 0 <= k < j ==> (#[trigger] s.nodes[k]).id != id)
            && first_node(s.nodes, id) == s.nodes[j];
    assert(n == f(s.nodes[j]));
    assert(forall|k: int| 0 <= k < r.nodes.len() && (#[trigger] r.nodes[k]).id == id ==> r.nodes[k] == f(s.nodes[j]));
    assert(group_ids_of(s.groups).contains(s.nodes[j].group_id) ==> r.nodes.contains(f(s.nodes[j])));
}

/// An accepted card edit sets what it names on the first card with its id,
/// stamps it `now`, and leaves every other field of it as it was: a move its
/// position, a layering change its z-index, a text edit the field edited, a
/// resize its position and size from the new bounds. No other card of the
/// result has that id.
pub proof fn lemma_card_edits_land(s: SceneView, p: PatchView, now: Seq<char>, env: OperationEnvelopeView, g: Geo)
    requires
        applied(s, p, now, env, g).errors.len() == 0,
    ensures
        ({
            let r = applied(s, p, now, env, g).scene;
            match p {
                PatchView::SetCardZIndex { id, z_index } => card_edited(
                    s,
                    r,
                    id,
                    |n: SceneNodeView| SceneNodeView { z_index, updated_at: Some(now), ..n },
                ),
                PatchView::MoveCard { id, position } => card_edited(
                    s,
                    r,
                    id,
                    |n: SceneNodeView| SceneNodeView { position, updated_at: Some(now), ..n },
                ),
                PatchView::EditCardText { id, field, value } => card_edited(
                    s,
                    r,
                    id,
                    |n: SceneNodeView|
                        match field {
                            EditField::Title => SceneNodeView { title: value, updated_at: Some(now), ..n },
                            EditField::Summary => SceneNodeView { summary: value, updated_at: Some(now), ..n },
                            EditField::Detail => SceneNodeView { detail: value, updated_at: Some(now), ..n },
                        },
                ),
                PatchView::ResizeCard { id, bounds } => card_edited(
                    s,
                    r,
                    id,
                    |n: SceneNodeView|
                        SceneNodeView {
                            position: Point { x: bounds.x, y: bounds.y },
                            size: Size { width: bounds.width, height: bounds.height },
                            updated_at: Some(now),
                            ..n
                        },
                ),
                _ => true,
            }
        }),
{
    let nk = node_ids_of(s.nodes);
    let r = applied(s, p, now, env, g).scene;
    match p {
        PatchView::SetCardZIndex { id, z_index } => {
            assert(patch_errors(s, p).len() == 0);
            lemma_first_node(s.nodes, id);
            let f = |n: SceneNodeView| SceneNodeView { z_index, updated_at: Some(now), ..n };
            lemma_card_edit_via(s, r, id, f, now, g.plus);
        },
        PatchView::MoveCard { id, position } => {
            assert(patch_errors(s, p).len() == 0);
            lemma_first_node(s.nodes, id);
            let f = |n: SceneNodeView| SceneNodeView { position, updated_at: Some(now), ..n };
            lemma_card_edit_via(s, r, id, f, now, g.plus);
        },
        PatchView::EditCardText { id, field, value } => {
            assert(patch_errors(s, p).len() == 0);
            lemma_first_node(s.nodes, id);
            let f = |n: SceneNodeView|
                match field {
                    EditField::Title => SceneNodeView { title: value, updated_at: Some(now), ..n },
                    EditField::Summary => SceneNodeView { summary: value, updated_at: Some(now), ..n },
                    EditField::Detail => SceneNodeView { detail: value, updated_at: Some(now), ..n },
                };
            lemma_card_edit_via(s, r, id, f, now, g.plus);
        },
        PatchView::ResizeCard { id, bounds } => {
            assert(patch_errors(s, p).len() == 0);
            lemma_first_node(s.nodes, id);
            let f = |n: SceneNodeView|
                SceneNodeView {
                    position: Point { x: bounds.x, y: bounds.y },
                    size: Size { width: bounds.width, height: bounds.height },
                    updated_at: Some(now),
                    ..n
                };
            lemma_card_edit_via(s, r, id, f, now, g.plus);
        },
        _ => {},
    }
}


/// After a commit that removes cards `rn` and edges `re` and upserts none,
/// no card of the result is one of `rn`, no edge of the result is one of
/// `re`, and no edge touches a card that is not in the result.
proof fn lemma_commit_removes(s: SceneView, cp: ScenePatchView, now: Seq<char>, plus: spec_fn(u64, u64) -> u64)
    requires
        cp.nodes is None,
        cp.edges is None,
        cp.translate_groups is None,
    ensures
        ({
            let r = committed(s, cp, now, plus);
            &&& forall|k: int| 0 <= k < r.nodes.len() ==> !opt_seq(cp.remove_node_ids).contains(#[trigger] r.nodes[k].id)
            &&& forall|k: int|
                0 <= k < r.edges.len() ==> !opt_seq(cp.remove_edge_ids).contains(#[trigger] r.edges[k].id)
                    && node_ids_of(r.nodes).contains(r.edges[k].source) && node_ids_of(r.nodes).contains(
                    r.edges[k].target,
                )
        }),
{
    let r = committed(s, cp, now, plus);
    let rn = opt_seq(cp.remove_node_ids);
    let re = opt_seq(cp.remove_edge_ids);
    let kn = keep(om_set_all::<SceneNode>(seq![], s.nodes), node_not_in(rn));
    let ke = keep(om_set_all::<SceneEdge>(seq![], s.edges), edge_not_in(re));
    assert(upserted_nodes(s, cp) == kn);
    assert(upserted_edges(s, cp) == ke);
    let gs = upserted_groups(s, cp);
    assert(opt_seq(cp.translate_groups) =~= Seq::<TranslateGroupView>::empty());
    let live = node_in_groups(group_ids_of(gs));
    assert(r.nodes == keep(kn, live));
    crate::graph::lemma_keep_members(kn, live);
    crate::graph::lemma_keep_members(om_set_all::<SceneNode>(seq![], s.nodes), node_not_in(rn));
    assert forall|k: int| 0 <= k < r.nodes.len() implies !rn.contains(#[trigger] r.nodes[k].id) by {
        assert(kn.contains(r.nodes[k]));
        let w = choose|w: int| 0 <= w < kn.len() && kn[w] == r.nodes[k];
        assert((node_not_in(rn))(kn[w]));
    }
    let el = edge_live(group_ids_of(r.groups), node_ids_of(r.nodes));
    assert(r.edges == keep(ke, el));
    crate::graph::lemma_keep_members(ke, el);
    crate::graph::lemma_keep_members(om_set_all::<SceneEdge>(seq![], s.edges), edge_not_in(re));
    assert forall|k: int|
        0 <= k < r.edges.len() implies !re.contains(#[trigger] r.edges[k].id) && node_ids_of(r.nodes).contains(
        r.edges[k].source,
    ) && node_ids_of(r.nodes).contains(r.edges[k].target) by {
        assert(el(r.edges[k]) && ke.contains(r.edges[k]));
        let w = choose|w: int| 0 <= w < ke.len() && ke[w] == r.edges[k];
        assert((edge_not_in(re))(ke[w]));
    }
}

/// An accepted card creation leaves one card with the new id, carrying the
/// card's group, text (an empty title reads "Untitled node"), position and
/// size from its bounds, and z-index, stamped `now`. An accepted card
/// deletion leaves no card with that id and no edge touching it; an
/// accepted edge deletion leaves no edge with that id.
pub proof fn lemma_card_lifecycle(s: SceneView, p: PatchView, now: Seq<char>, env: OperationEnvelopeView, g: Geo)
    requires
        applied(s, p, now, env, g).errors.len() == 0,
    ensures
        ({
            let r = applied(s, p, now, env, g).scene;
            match p {
                PatchView::CreateCard { card } => exists|n: SceneNodeView|
                    #![trigger r.nodes.contains(n)]
                    r.nodes.contains(n) && n.id == card.id && n.group_id == card.group_id && n.summary == card.summary
                        && n.detail == card.detail && (card.title.len() > 0 ==> n.title == card.title) && n.position
                        == Point { x: card.bounds.x, y: card.bounds.y } && n.size == Size {
                        width: card.bounds.width,
                        height: card.bounds.height,
                    } && n.z_index == card.z_index && n.updated_at == Some(now) && forall|k: int|
                        0 <= k < r.nodes.len() && (#[trigger] r.nodes[k]).id == card.id ==> r.nodes[k] == n,
                PatchView::DeleteCard { id } => (forall|k: int| 0 <= k < r.nodes.len() ==> (#[trigger] r.nodes[k]).id != id)
                    && forall|k: int|
                    0 <= k < r.edges.len() ==> (#[trigger] r.edges[k]).source != id && r.edges[k].target != id,
                PatchView::DeleteEdge { id } => forall|k: int| 0 <= k < r.edges.len() ==> (#[trigger] r.edges[k]).id != id,
                _ => true,
            }
        }),
{
    let r = applied(s, p, now, env, g).scene;
    match p {
        PatchView::CreateCard { card } => {
            let e = patch_errors(s, p);
            assert(e.len() == 0);
            assert(group_ids_of(s.groups).contains(card.group_id));
            let n = node_from_render(card, now);
            lemma_commit_one_card(s, n, now, g.plus);
            assert(r == committed(s, node_patch(n), now, g.plus));
            assert(r.nodes.contains(n));
        },
        PatchView::DeleteCard { id } => {
            let cp = effect(s, p, now, g);
            lemma_commit_removes(s, cp, now, g.plus);
            assert(r == committed(s, cp, now, g.plus));
            assert(opt_seq(cp.remove_node_ids) =~= seq![id]);
            assert forall|k: int| 0 <= k < r.nodes.len() implies (#[trigger] r.nodes[k]).id != id by {
                assert(!opt_seq(cp.remove_node_ids).contains(r.nodes[k].id));
                if r.nodes[k].id == id {
                    assert(seq![id][0] == id);
                }
            }
            assert forall|k: int| 0 <= k < r.edges.len() implies (#[trigger] r.edges[k]).source != id
                && r.edges[k].target != id by {
                let ids = node_ids_of(r.nodes);
                assert(!opt_seq(cp.remove_edge_ids).contains(r.edges[k].id));
                assert(ids.contains(r.edges[k].source) && ids.contains(r.edges[k].target));
                if ids.contains(id) {
                    let w = choose|w: int| 0 <= w < ids.len() && ids[w] == id;
                    assert(r.nodes[w].id == id);
                    assert(!opt_seq(cp.remove_node_ids).contains(r.nodes[w].id));
                    assert(seq![id][0] == id);
                }
            }
        },
        PatchView::DeleteEdge { id } => {
            let cp = effect(s, p, now, g);
            lemma_commit_removes(s, cp, now, g.plus);
            assert(r == committed(s, cp, now, g.plus));
            assert(opt_seq(cp.remove_edge_ids) =~= seq![id]);
            assert forall|k: int| 0 <= k < r.edges.len() implies (#[trigger] r.edges[k]).id != id by {
                assert(!opt_seq(cp.remove_edge_ids).contains(r.edges[k].id));
                if r.edges[k].id == id {
                    assert(seq![id][0] == id);
                }
            }
        },
        _ => {},
    }
}


/// An accepted group move moves the group by the delta (its bounds' corner
/// shifted through `plus`, stamped `now`) and leaves every other group as
/// the scene had it; the group stays.
#[verifier::spinoff_prover]
pub proof fn lemma_group_move_lands(s: SceneView, id: Seq<char>, delta: Point, now: Seq<char>, env: OperationEnvelopeView, g: Geo)
    requires
        applied(s, PatchView::MoveGroup { id, delta }, now, env, g).errors.len() == 0,
    ensures
        ({
            let r = applied(s, PatchView::MoveGroup { id, delta }, now, env, g).scene;
            &&& exists|k: int| 0 <= k < r.groups.len() && (#[trigger] r.groups[k]).id == id
            &&& forall|k: int|
                0 <= k < r.groups.len() ==> exists|g0: SceneGroupView|
                    #![trigger s.groups.contains(g0)]
                    s.groups.contains(g0) && g0.id == r.groups[k].id && (#[trigger] r.groups[k]) == (if g0.id == id {
                        SceneGroupView {
                            bounds: Bounds {
                                x: (g.plus)(g0.bounds.x, delta.x),
                                y: (g.plus)(g0.bounds.y, delta.y),
                                ..g0.bounds
                            },
                            updated_at: now,
                            ..g0
                        }
                    } else {
                        g0
                    })
        }),
{
    let p = PatchView::MoveGroup { id, delta };
    let r = applied(s, p, now, env, g).scene;
    assert(patch_errors(s, p).len() == 0);
    assert(group_ids_of(s.groups).contains(id));
    let cp = effect(s, p, now, g);
    assert(r == committed(s, cp, now, g.plus));
    let t = TranslateGroupView { group_id: id, dx: delta.x, dy: delta.y };
    assert(opt_seq(cp.translate_groups) == seq![t]);
    let gs0 = om_set_all::<SceneGroup>(seq![], s.groups);
    let ns0 = om_set_all::<SceneNode>(seq![], s.nodes);
    lemma_keep_all(s.groups, group_not_in(seq![]));
    lemma_keep_all(ns0, node_not_in(seq![]));
    assert(opt_seq(cp.remove_group_ids) =~= Seq::<Seq<char>>::empty());
    assert(opt_seq(cp.remove_node_ids) =~= Seq::<Seq<char>>::empty());
    assert(upserted_groups(s, cp) == gs0);
    assert(upserted_nodes(s, cp) == ns0);
    assert(seq![t].drop_last() =~= Seq::<TranslateGroupView>::empty());
    let j = choose|j: int| 0 <= j < group_ids_of(s.groups).len() && group_ids_of(s.groups)[j] == id;
    assert(SceneGroup::key_of(s.groups[j]) == id);
    lemma_set_all_has_key::<SceneGroup>(seq![], s.groups, id);
    let e = choose|e: SceneGroupView| gs0.contains(e) && SceneGroup::key_of(e) == id;
    let q = choose|q: int| 0 <= q < gs0.len() && gs0[q] == e;
    assert(group_ids_of(gs0)[q] == id);
    let (gs, ns) = translate_one(gs0, ns0, t, now, g.plus);
    assert(translate_all(gs0, ns0, seq![t].drop_last(), now, g.plus) == (gs0, ns0));
    assert(seq![t].last() == t);
    assert(translate_all(gs0, ns0, seq![t], now, g.plus) == (gs, ns));
    assert(r.groups == gs);
    assert(gs[q].id == id);
    assert(r.groups[q].id == id);
    assert(exists|k: int| 0 <= k < r.groups.len() && (#[trigger] r.groups[k]).id == id);
    assert forall|k: int| 0 <= k < r.groups.len() implies exists|g0: SceneGroupView|
        #![trigger s.groups.contains(g0)]
        s.groups.contains(g0) && g0.id == r.groups[k].id && (#[trigger] r.groups[k]) == (if g0.id == id {
            SceneGroupView {
                bounds: Bounds { x: (g.plus)(g0.bounds.x, delta.x), y: (g.plus)(g0.bounds.y, delta.y), ..g0.bounds },
                updated_at: now,
                ..g0
            }
        } else {
            g0
        }) by {
        let g0 = gs0[k];
        assert(gs0.contains(g0));
        crate::graph::lemma_set_all_from::<SceneGroup>(seq![], s.groups, g0);
        assert(s.groups.contains(g0));
    }
}


/// An accepted edge creation leaves no other edge under the new id: every
/// edge of the result with that id runs from the given source to the given
/// target in the given group, with the given label ("relates" when none),
/// stamped `now`.
#[verifier::spinoff_prover]
pub proof fn lemma_edge_creation_lands(s: SceneView, p: PatchView, now: Seq<char>, env: OperationEnvelopeView, g: Geo)
    requires
        applied(s, p, now, env, g).errors.len() == 0,
        p is CreateEdge,
    ensures
        ({
            let r = applied(s, p, now, env, g).scene;
            match p {
                PatchView::CreateEdge { group_id, source, target, edge_id, label } => forall|k: int|
                    0 <= k < r.edges.len() && (#[trigger] r.edges[k]).id == edge_id ==> r.edges[k].source == source
                        && r.edges[k].target == target && r.edges[k].group_id == group_id && r.edges[k].label == (
                    match label {
                        Some(l) => l,
                        None => "relates"@,
                    }) && r.edges[k].updated_at == Some(now),
                _ => true,
            }
        }),
{
    match p {
        PatchView::CreateEdge { group_id, source, target, edge_id, label } => {
            let r = applied(s, p, now, env, g).scene;
            let cp = effect(s, p, now, g);
            let e = cp.edges->0[0];
            assert(r == committed(s, cp, now, g.plus));
            let d = om_set_all::<SceneEdge>(seq![], s.edges);
            crate::graph::lemma_set_all_unique::<SceneEdge>(seq![], s.edges);
            assert(opt_seq(cp.remove_edge_ids) =~= Seq::<Seq<char>>::empty());
            lemma_keep_all(d, edge_not_in(opt_seq(cp.remove_edge_ids)));
            assert(opt_seq(cp.edges) =~= seq![e]);
            assert(seq![e].drop_last() =~= Seq::<SceneEdgeView>::empty());
            assert(om_set_all::<SceneEdge>(d, seq![e].drop_last()) == d);
            let ue = upserted_edges(s, cp);
            assert(ue == crate::graph::om_set::<SceneEdge>(d, e));
            crate::graph::lemma_set_unique::<SceneEdge>(d, e);
            crate::graph::lemma_set_holds::<SceneEdge>(d, e);
            let el = edge_live(group_ids_of(r.groups), node_ids_of(r.nodes));
            assert(r.edges == keep(ue, el));
            crate::graph::lemma_keep_members(ue, el);
            assert forall|k: int| 0 <= k < r.edges.len() && (#[trigger] r.edges[k]).id == edge_id implies r.edges[k] == e by {
                assert(ue.contains(r.edges[k]));
                let w = choose|w: int| 0 <= w < ue.len() && ue[w] == r.edges[k];
                let v = choose|v: int| 0 <= v < ue.len() && ue[v] == e;
                if w != v {
                    if w < v {
                        assert(SceneEdge::key_of(ue[w]) != SceneEdge::key_of(ue[v]));
                    } else {
                        assert(SceneEdge::key_of(ue[v]) != SceneEdge::key_of(ue[w]));
                    }
                }
            }
        },
        _ => {},
    }
}

} // verus!
