//! Group-hierarchy containment queries and ops: what a double click does,
//! whether a selection stays in a drilled-into container, and the ops that
//! group objects under a new frame, pop a child out or dissolve a
//! container. These author ops (or report a decision); they never apply
//! them.

use vstd::prelude::*;

use crate::key_order::{chars_lt, lemma_chars_lt_irreflexive, lemma_chars_lt_total, lemma_chars_lt_transitive, str_lt};
use crate::fractional::{generate_n_keys_between, next_order_key, next_order_spec, spec_n_keys, string_views};
use crate::object::model::{
    find_object, object_views, Align, AnchorView, CommentView, CrossAlign, FillRule, Geometry, GeometryView, Lanes,
    Layout, LayoutAxis, MainAlign, Object, ObjectScene, ObjectSceneView, ObjectSelection, ObjectSelectionView,
    ObjectView, Transform3x3,
};
use crate::object::op::{op_view, op_views, ObjectOp, ObjectOpView};
use crate::object::path::ensured;
use crate::text::{chars_of, str_eq, strs};

verus! {

/// What a double click on an object does.
#[derive(Clone, Copy, Debug, PartialEq, Eq, Structural)]
pub enum DoubleClickAction {
    DrillInContainer,
    EditLeaf,
}

/// Some object names `id` as its parent.
pub open spec fn has_child(s: ObjectSceneView, id: Seq<char>) -> bool {
    exists|j: int| 0 <= j < s.objects.len() && s.objects[j].parent == Some(id)
}

pub fn has_children(scene: &ObjectScene, id: &str) -> (r: bool)
    ensures
        r == has_child(scene@, id@),
{
    let mut j: usize = 0;
    while j < scene.objects.len()
        invariant
            j <= scene.objects@.len(),
            forall|k: int| 0 <= k < j ==> scene@.objects[k].parent != Some(id@),
        decreases scene.objects@.len() - j,
    {
        proof {
            assert(scene@.objects[j as int] == scene.objects@[j as int]@);
        }
        match &scene.objects[j].parent {
            Some(p) => {
                if str_eq(p.as_str(), id) {
                    return true;
                }
            },
            None => {},
        }
        j = j + 1;
    }
    false
}

/// Enabled only for a single selected object that is a container.
pub fn ungroup_enabled(scene: &ObjectScene, selected_id: Option<&str>) -> (r: bool)
    ensures
        r == match selected_id {
            Some(id) => has_child(scene@, id@),
            None => false,
        },
{
    match selected_id {
        Some(id) => has_children(scene, id),
        None => false,
    }
}

pub fn double_click_action(scene: &ObjectScene, id: &str) -> (r: DoubleClickAction)
    ensures
        r == if has_child(scene@, id@) {
            DoubleClickAction::DrillInContainer
        } else {
            DoubleClickAction::EditLeaf
        },
{
    if has_children(scene, id) {
        DoubleClickAction::DrillInContainer
    } else {
        DoubleClickAction::EditLeaf
    }
}

/// The selection is the container itself or one of its direct children.
pub open spec fn in_scope(s: ObjectSceneView, selection: ObjectSelectionView, container: Seq<char>) -> bool {
    match selection {
        ObjectSelectionView::Object { id } => id == container || match find_object(s.objects, id) {
            Some(o) => o.parent == Some(container),
            None => false,
        },
        _ => false,
    }
}

/// Whether `selection` still belongs to the drilled-into `container`: true for
/// the container itself or one of its direct children, false otherwise
/// (canvas, multi, an unknown id, or an object parented elsewhere).
pub fn object_selection_in_scope(scene: &ObjectScene, selection: &ObjectSelection, container: &str) -> (r: bool)
    ensures
        r == in_scope(scene@, selection@, container@),
{
    match selection {
        ObjectSelection::Object { id } => {
            if str_eq(id.as_str(), container) {
                return true;
            }
            match scene.get(id.as_str()) {
                Some(o) => match &o.parent {
                    Some(p) => str_eq(p.as_str(), container),
                    None => false,
                },
                None => false,
            }
        },
        _ => false,
    }
}

/// The op that re-homes `id` to its grandparent (or the canvas root), keeping
/// its order key.
pub open spec fn pop_out(s: ObjectSceneView, id: Seq<char>) -> Option<ObjectOpView> {
    match find_object(s.objects, id) {
        None => None,
        Some(child) => match child.parent {
            None => None,
            Some(p) => Some(
                ObjectOpView::Reparent {
                    id,
                    parent: match find_object(s.objects, p) {
                        Some(po) => po.parent,
                        None => None,
                    },
                    order: child.order,
                },
            ),
        },
    }
}

fn copy_opt(o: &Option<String>) -> (r: Option<String>)
    ensures
        crate::object::model::opt_str(r) == crate::object::model::opt_str(*o),
{
    match o {
        Some(s) => Some(s.clone()),
        None => None,
    }
}

/// Re-homes `id` to its grandparent, or to the canvas root when the parent
/// sits at the root. `None` when `id` is unknown or already at the root.
pub fn pop_out_op(scene: &ObjectScene, id: &str) -> (r: Option<ObjectOp>)
    ensures
        match r {
            Some(op) => pop_out(scene@, id@) == Some(op_view(op)),
            None => pop_out(scene@, id@) is None,
        },
{
    let child = match scene.get(id) {
        Some(c) => c,
        None => return None,
    };
    let parent_id = match &child.parent {
        Some(p) => p,
        None => return None,
    };
    let grandparent = match scene.get(parent_id.as_str()) {
        Some(p) => copy_opt(&p.parent),
        None => None,
    };
    Some(ObjectOp::Reparent { id: id.to_owned(), parent: grandparent, order: child.order.clone() })
}

/// Paint order: by order key, ties by id.
pub open spec fn paint_before(a: ObjectView, b: ObjectView) -> bool {
    chars_lt(a.order, b.order) || (a.order == b.order && chars_lt(a.id, b.id))
}

proof fn lemma_paint_order(a: ObjectView, b: ObjectView, c: ObjectView)
    ensures
        !paint_before(a, a),
        paint_before(a, b) ==> !paint_before(b, a),
        (a.order == b.order && a.id == b.id) || paint_before(a, b) || paint_before(b, a),
        paint_before(a, b) && paint_before(b, c) ==> paint_before(a, c),
{
    lemma_chars_lt_irreflexive(a.order);
    lemma_chars_lt_irreflexive(a.id);
    lemma_chars_lt_total(a.order, b.order);
    lemma_chars_lt_total(a.id, b.id);
    if chars_lt(a.order, b.order) && chars_lt(b.order, c.order) {
        lemma_chars_lt_transitive(a.order, b.order, c.order);
    }
    if a.order == b.order && chars_lt(a.id, b.id) && b.order == c.order && chars_lt(b.id, c.id) {
        lemma_chars_lt_transitive(a.id, b.id, c.id);
    }
}

fn paint_before_exec(a: &crate::object::model::Object, b: &crate::object::model::Object) -> (r: bool)
    ensures
        r == paint_before(a@, b@),
{
    if str_lt(a.order.as_str(), b.order.as_str()) {
        return true;
    }
    str_eq(a.order.as_str(), b.order.as_str()) && str_lt(a.id.as_str(), b.id.as_str())
}

/// `idx` lists the children of `frame_id`, each once, in paint order.
pub open spec fn children_in_paint_order(s: ObjectSceneView, frame_id: Seq<char>, idx: Seq<int>) -> bool {
    &&& idx.no_duplicates()
    &&& forall|k: int| 0 <= k < idx.len() ==> 0 <= #[trigger] idx[k] < s.objects.len() && s.objects[idx[k]].parent == Some(frame_id)
    &&& forall|j: int| 0 <= j < s.objects.len() && s.objects[j].parent == Some(frame_id) ==> idx.contains(j)
    &&& forall|a: int, b: int| 0 <= a < b < idx.len() ==> !paint_before(s.objects[#[trigger] idx[b]], s.objects[#[trigger] idx[a]])
}

/// The ops dissolving a container with the given children: each child
/// re-homed to `parent` keeping its order key, then the container deleted.
pub open spec fn ungroup_plan(s: ObjectSceneView, frame_id: Seq<char>, parent: Option<Seq<char>>, idx: Seq<int>) -> Seq<ObjectOpView> {
    idx.map_values(
        |i: int| ObjectOpView::Reparent { id: s.objects[i].id, parent, order: s.objects[i].order },
    ).push(ObjectOpView::Delete { id: frame_id })
}

/// The children of `frame_id`, as positions in the scene, in paint order.
fn children_sorted(scene: &ObjectScene, frame_id: &str) -> (r: Vec<usize>)
    ensures
        children_in_paint_order(scene@, frame_id@, r@.map_values(|i: usize| i as int)),
{
    let ghost s = scene@;
    let mut sorted: Vec<usize> = Vec::new();
    let mut j: usize = 0;
    while j < scene.objects.len()
        invariant
            s == scene@,
            j <= scene.objects@.len(),
            ({
                let idx = sorted@.map_values(|i: usize| i as int);
                &&& idx.no_duplicates()
                &&& forall|k: int| 0 <= k < idx.len() ==> 0 <= #[trigger] idx[k] < j && s.objects[idx[k]].parent == Some(frame_id@)
                &&& forall|q: int| 0 <= q < j && s.objects[q].parent == Some(frame_id@) ==> idx.contains(q)
                &&& forall|a: int, b: int| 0 <= a < b < idx.len() ==> !paint_before(s.objects[#[trigger] idx[b]], s.objects[#[trigger] idx[a]])
            }),
        decreases scene.objects@.len() - j,
    {
        proof {
            assert(s.objects[j as int] == scene.objects@[j as int]@);
        }
        let is_child = match &scene.objects[j].parent {
            Some(p) => str_eq(p.as_str(), frame_id),
            None => false,
        };
        if is_child {
            let x = &scene.objects[j];
            let mut p = sorted.len();
            proof {
                let idx0 = sorted@.map_values(|i: usize| i as int);
                assert forall|k: int| 0 <= k < sorted@.len() implies #[trigger] sorted@[k] < j by {
                    assert(idx0[k] == sorted@[k] as int);
                }
            }
            while p > 0 && paint_before_exec(x, &scene.objects[sorted[p - 1]])
                invariant
                    s == scene@,
                    x@ == s.objects[j as int],
                    p <= sorted@.len(),
                    j < s.objects.len(),
                    forall|k: int| 0 <= k < sorted@.len() ==> #[trigger] sorted@[k] < j,
                    forall|q: int| p <= q < sorted@.len() ==> paint_before(s.objects[j as int], s.objects[#[trigger] sorted@[q] as int]),
                decreases p,
            {
                proof {
                    assert(s.objects[sorted@[p - 1] as int] == scene.objects@[sorted@[p - 1] as int]@);
                }
                p = p - 1;
            }
            proof {
                if p > 0 {
                    assert(s.objects[sorted@[p - 1] as int] == scene.objects@[sorted@[p - 1] as int]@);
                }
            }
            let ghost old_idx = sorted@.map_values(|i: usize| i as int);
            sorted.insert(p, j);
            proof {
                let idx = sorted@.map_values(|i: usize| i as int);
                assert(idx =~= old_idx.insert(p as int, j as int));
                let xv = s.objects[j as int];
                assert forall|a: int, b: int| 0 <= a < b < idx.len() implies !paint_before(
                    s.objects[#[trigger] idx[b]],
                    s.objects[#[trigger] idx[a]],
                ) by {
                    if b < p {
                        assert(idx[a] == old_idx[a] && idx[b] == old_idx[b]);
                    } else if a > p {
                        assert(idx[a] == old_idx[a - 1] && idx[b] == old_idx[b - 1]);
                    } else if a < p && b > p {
                        assert(idx[a] == old_idx[a] && idx[b] == old_idx[b - 1]);
                    } else if a == p {
                        assert(idx[b] == old_idx[b - 1]);
                        assert(paint_before(xv, s.objects[sorted@[b] as int]));
                        lemma_paint_order(xv, s.objects[idx[b]], xv);
                    } else {
                        assert(b == p);
                        assert(idx[a] == old_idx[a]);
                        let last = s.objects[old_idx[p - 1]];
                        let e = s.objects[idx[a]];
                        assert(!paint_before(xv, last));
                        if a < p - 1 {
                            assert(!paint_before(last, e));
                        }
                        lemma_paint_order(xv, e, last);
                        lemma_paint_order(e, last, xv);
                        lemma_paint_order(last, e, xv);
                        if paint_before(xv, e) {
                            if e.order == last.order && e.id == last.id {
                                assert(paint_before(xv, last));
                            } else if paint_before(e, last) {
                                lemma_paint_order(xv, e, last);
                            }
                        }
                    }
                }
                assert forall|k: int| 0 <= k < idx.len() implies 0 <= #[trigger] idx[k] < j + 1 && s.objects[idx[k]].parent == Some(frame_id@) by {
                    if k < p {
                        assert(idx[k] == old_idx[k]);
                    } else if k > p {
                        assert(idx[k] == old_idx[k - 1]);
                    }
                }
                assert forall|q: int| 0 <= q < j + 1 && s.objects[q].parent == Some(frame_id@) implies idx.contains(q) by {
                    if q == j {
                        assert(idx[p as int] == j);
                    } else {
                        assert(old_idx.contains(q));
                        let w = choose|w: int| 0 <= w < old_idx.len() && old_idx[w] == q;
                        if w < p {
                            assert(idx[w] == q);
                        } else {
                            assert(idx[w + 1] == q);
                        }
                    }
                }
                assert forall|a: int, b: int| 0 <= a < b < idx.len() implies idx[a] != idx[b] by {
                    if a == p {
                        assert(idx[b] == old_idx[b - 1]);
                    } else if b == p {
                        assert(idx[a] == old_idx[a]);
                    } else if b < p {
                        assert(idx[a] == old_idx[a] && idx[b] == old_idx[b]);
                    } else if a > p {
                        assert(idx[a] == old_idx[a - 1] && idx[b] == old_idx[b - 1]);
                    } else {
                        assert(idx[a] == old_idx[a] && idx[b] == old_idx[b - 1]);
                    }
                }
            }
        } else {
            proof {
                assert(s.objects[j as int].parent != Some(frame_id@));
            }
        }
        j = j + 1;
    }
    sorted
}

/// The ops dissolving the container `frame_id`: every child re-homed to the
/// frame's parent (its grandparent, or the canvas root), each keeping its own
/// order key, in paint order; then the now-empty frame deleted. `None` when
/// `frame_id` is unknown.
pub fn ungroup_ops(scene: &ObjectScene, frame_id: &str) -> (r: Option<Vec<ObjectOp>>)
    ensures
        match find_object(scene@.objects, frame_id@) {
            None => r is None,
            Some(frame) => r is Some && exists|idx: Seq<int>|
                children_in_paint_order(scene@, frame_id@, idx) && op_views(r->0@) == ungroup_plan(
                    scene@,
                    frame_id@,
                    frame.parent,
                    idx,
                ),
        },
{
    let frame = match scene.get(frame_id) {
        Some(f) => f,
        None => return None,
    };
    let children = children_sorted(scene, frame_id);
    let ghost idx = children@.map_values(|i: usize| i as int);
    let mut ops: Vec<ObjectOp> = Vec::new();
    let mut k: usize = 0;
    while k < children.len()
        invariant
            k <= children@.len(),
            idx == children@.map_values(|i: usize| i as int),
            children_in_paint_order(scene@, frame_id@, idx),
            find_object(scene@.objects, frame_id@) == Some(frame@),
            op_views(ops@) == ungroup_plan(scene@, frame_id@, frame@.parent, idx.subrange(0, k as int)).drop_last(),
        decreases children@.len() - k,
    {
        proof {
            assert(idx[k as int] == children@[k as int] as int);
            assert(0 <= idx[k as int] < scene@.objects.len());
        }
        let c = &scene.objects[children[k]];
        proof {
            assert(idx[k as int] == children@[k as int] as int);
            assert(scene@.objects[idx[k as int]] == c@);
        }
        let op = ObjectOp::Reparent { id: c.id.clone(), parent: copy_opt(&frame.parent), order: c.order.clone() };
        let ghost before = ops@;
        ops.push(op);
        proof {
            assert(ops@.drop_last() =~= before);
            assert(ungroup_plan(scene@, frame_id@, frame@.parent, idx.subrange(0, k + 1)).drop_last() =~= ungroup_plan(
                scene@,
                frame_id@,
                frame@.parent,
                idx.subrange(0, k as int),
            ).drop_last().push(op_view(op)));
        }
        k = k + 1;
    }
    let ghost before = ops@;
    let del = ObjectOp::Delete { id: frame_id.to_owned() };
    let ghost dv = op_view(del);
    ops.push(del);
    proof {
        assert(ops@.drop_last() =~= before);
        assert(idx.len() == children@.len());
        assert(idx.subrange(0, idx.len() as int) =~= idx);
        assert(op_views(ops@) == op_views(before).push(dv));
        assert(dv == ObjectOpView::Delete { id: frame_id@ });
        assert(op_views(ops@) =~= ungroup_plan(scene@, frame_id@, frame@.parent, idx));
    }
    Some(ops)
}


/// The objects `ids` name, in input order (an id named twice counts twice;
/// an unknown id is skipped).
pub open spec fn found_members(objects: Seq<ObjectView>, ids: Seq<Seq<char>>) -> Seq<ObjectView>
    decreases ids.len(),
{
    if ids.len() == 0 {
        seq![]
    } else {
        let r = found_members(objects, ids.drop_last());
        match find_object(objects, ids.last()) {
            Some(o) => r.push(o),
            None => r,
        }
    }
}

/// `l` with `x` placed after every member it does not paint before, scanning
/// from the end (a stable insertion).
pub open spec fn paint_insert(l: Seq<ObjectView>, x: ObjectView) -> Seq<ObjectView>
    decreases l.len(),
{
    if l.len() > 0 && paint_before(x, l.last()) {
        paint_insert(l.drop_last(), x).push(l.last())
    } else {
        l.push(x)
    }
}

/// `s` in paint order (order key, then id), keeping the input order of ties.
pub open spec fn paint_sorted(s: Seq<ObjectView>) -> Seq<ObjectView>
    decreases s.len(),
{
    if s.len() == 0 {
        seq![]
    } else {
        paint_insert(paint_sorted(s.drop_last()), s.last())
    }
}

proof fn lemma_paint_insert(l: Seq<ObjectView>, x: ObjectView, p: int)
    requires
        0 <= p <= l.len(),
        forall|q: int| p <= q < l.len() ==> paint_before(x, #[trigger] l[q]),
        p == 0 || !paint_before(x, l[p - 1]),
    ensures
        paint_insert(l, x) == l.insert(p, x),
    decreases l.len(),
{
    if p == l.len() {
        assert(l.insert(p, x) =~= l.push(x));
    } else {
        assert(paint_before(x, l[l.len() - 1]));
        let d = l.drop_last();
        assert forall|q: int| p <= q < d.len() implies paint_before(x, #[trigger] d[q]) by {
            assert(d[q] == l[q]);
        }
        if p > 0 {
            assert(d[p - 1] == l[p - 1]);
        }
        lemma_paint_insert(d, x, p);
        assert(d.insert(p, x).push(l.last()) =~= l.insert(p, x));
    }
}

proof fn lemma_paint_sorted_len(s: Seq<ObjectView>)
    ensures
        paint_sorted(s).len() == s.len(),
    decreases s.len(),
{
    if s.len() > 0 {
        lemma_paint_sorted_len(s.drop_last());
        lemma_paint_insert_len(paint_sorted(s.drop_last()), s.last());
    }
}

proof fn lemma_paint_insert_len(l: Seq<ObjectView>, x: ObjectView)
    ensures
        paint_insert(l, x).len() == l.len() + 1,
    decreases l.len(),
{
    if l.len() > 0 && paint_before(x, l.last()) {
        lemma_paint_insert_len(l.drop_last(), x);
    }
}

/// What `frame` gives for a list of members, by their views.
pub open spec fn opt_frame(r: Option<(String, Transform3x3, LayoutAxis)>) -> Option<(Seq<char>, Transform3x3, LayoutAxis)> {
    match r {
        Some((d, t, a)) => Some((d@, t, a)),
        None => None,
    }
}

/// `frame` is defined on every member list and gives one result for each,
/// by the members' views.
pub open spec fn frames<F: Fn(&Vec<Object>) -> Option<(String, Transform3x3, LayoutAxis)>>(frame: F) -> bool {
    &&& forall|m: &Vec<Object>| #[trigger] frame.requires((m,))
    &&& forall|m1: &Vec<Object>, m2: &Vec<Object>, r1: Option<(String, Transform3x3, LayoutAxis)>, r2: Option<(String, Transform3x3, LayoutAxis)>|
        object_views(m1@) == object_views(m2@) && #[trigger] frame.ensures((m1,), r1) && #[trigger] frame.ensures((m2,), r2)
            ==> opt_frame(r1) == opt_frame(r2)
}

/// The frame `frame` gives the members: its path text (object-local), its
/// placement transform and its flow axis; `None` when no member has a region.
pub open spec fn framed_by<F: Fn(&Vec<Object>) -> Option<(String, Transform3x3, LayoutAxis)>>(frame: F) -> spec_fn(
    Seq<ObjectView>,
) -> Option<(Seq<char>, Transform3x3, LayoutAxis)> {
    |ms: Seq<ObjectView>|
        opt_frame(
            (choose|m: &Vec<Object>, r: Option<(String, Transform3x3, LayoutAxis)>|
                object_views(m@) == ms && #[trigger] frame.ensures((m,), r)).1,
        )
}

proof fn lemma_framed_by<F: Fn(&Vec<Object>) -> Option<(String, Transform3x3, LayoutAxis)>>(
    frame: F,
    m: &Vec<Object>,
    r: Option<(String, Transform3x3, LayoutAxis)>,
)
    requires
        frames(frame),
        frame.ensures((m,), r),
    ensures
        (framed_by(frame))(object_views(m@)) == opt_frame(r),
{
    let c = choose|x: &Vec<Object>, q: Option<(String, Transform3x3, LayoutAxis)>|
        object_views(x@) == object_views(m@) && #[trigger] frame.ensures((x,), q);
    assert(frame.ensures((c.0,), c.1));
}

/// The flow layout a new frame starts with.
pub open spec fn flow_layout(axis: LayoutAxis) -> Layout {
    Layout {
        axis,
        lanes: Lanes::Count { value: 1 },
        spacing: 0,
        align: Align { main: MainAlign::Start, cross: CrossAlign::Start },
    }
}

/// A new non-clipping frame with path text `d` (read into subpaths when it
/// parses), placed by `t`, flowing along `axis`.
pub open spec fn frame_object(id: Seq<char>, order: Seq<char>, d: Seq<char>, t: Transform3x3, axis: LayoutAxis) -> ObjectView {
    ObjectView {
        id,
        order,
        parent: None,
        geometry: ensured(GeometryView { path_string: d, fill_rule: FillRule::NonZero, subpaths: seq![] }),
        transform: t,
        fill: None,
        stroke: None,
        text: None,
        anchors: seq![],
        layout: Some(flow_layout(axis)),
        clip: Some(false),
        comments: seq![],
        tags: seq![],
    }
}

/// The ops grouping `ids` under a new frame `frame_id`: `None` below two
/// members found, when `framed` finds no region, or when no keys can be
/// minted; else the frame's insert (on top of the scene) followed by one
/// reparent per member, in paint order, each with a fresh ascending key.
pub open spec fn group_plan(
    s: ObjectSceneView,
    ids: Seq<Seq<char>>,
    frame_id: Seq<char>,
    framed: spec_fn(Seq<ObjectView>) -> Option<(Seq<char>, Transform3x3, LayoutAxis)>,
) -> Option<Seq<ObjectOpView>> {
    let found = found_members(s.objects, ids);
    let ms = paint_sorted(found);
    if found.len() < 2 {
        None
    } else {
        match framed(ms) {
            None => None,
            Some((d, t, axis)) => match spec_n_keys(None, None, found.len()) {
                None => None,
                Some(keys) => Some(
                    seq![ObjectOpView::InsertObject { object: frame_object(frame_id, next_order_spec(s.objects), d, t, axis) }]
                        + Seq::new(
                        found.len(),
                        |k: int| ObjectOpView::Reparent { id: ms[k].id, parent: Some(frame_id), order: chars_of(keys[k]) },
                    ),
                ),
            },
        }
    }
}

/// Authors the ops grouping `ids` under a freshly minted frame `frame_id`: an
/// `insert-object` for the frame (a non-clipping rect that `frame` sizes and
/// places to the members' union world bounds, defaulting to a flow along the
/// wider spread), then one `reparent` per member re-homing it into the frame
/// with fresh order keys in the members' paint order. `None` below two known
/// members, or when no member has a region to frame.
pub fn group_ops<F: Fn(&Vec<Object>) -> Option<(String, Transform3x3, LayoutAxis)>>(
    scene: &ObjectScene,
    ids: &[String],
    frame_id: &str,
    frame: &F,
) -> (r: Option<Vec<ObjectOp>>)
    requires
        frames(*frame),
    ensures
        match r {
            None => group_plan(scene@, strs(ids@), frame_id@, framed_by(*frame)) is None,
            Some(v) => group_plan(scene@, strs(ids@), frame_id@, framed_by(*frame)) == Some(op_views(v@)),
        },
{
    let ghost objs = scene@.objects;
    let ghost idv = strs(ids@);
    let mut found: Vec<Object> = Vec::new();
    let mut i: usize = 0;
    while i < ids.len()
        invariant
            i <= ids.len(),
            objs == scene@.objects,
            idv == strs(ids@),
            object_views(found@) == found_members(objs, idv.subrange(0, i as int)),
        decreases ids.len() - i,
    {
        assert(idv.subrange(0, i + 1).drop_last() =~= idv.subrange(0, i as int));
        assert(idv.subrange(0, i + 1).last() == ids@[i as int]@);
        match scene.get(ids[i].as_str()) {
            Some(o) => {
                let c = o.copy_of();
                let ghost before = found@;
                found.push(c);
                assert(object_views(found@) =~= object_views(before).push(c@));
            },
            None => {},
        }
        i = i + 1;
    }
    assert(idv.subrange(0, ids@.len() as int) =~= idv);
    let ghost fv = object_views(found@);
    if found.len() < 2 {
        return None;
    }
    let mut members: Vec<Object> = Vec::new();
    let mut j: usize = 0;
    while j < found.len()
        invariant
            j <= found.len(),
            fv == object_views(found@),
            object_views(members@) == paint_sorted(fv.subrange(0, j as int)),
        decreases found.len() - j,
    {
        assert(fv.subrange(0, j + 1).drop_last() =~= fv.subrange(0, j as int));
        assert(fv.subrange(0, j + 1).last() == found@[j as int]@);
        let x = found[j].copy_of();
        let ghost l = object_views(members@);
        let mut p = members.len();
        while p > 0 && paint_before_exec(&x, &members[p - 1])
            invariant
                p <= members@.len(),
                l == object_views(members@),
                forall|q: int| p <= q < l.len() ==> paint_before(x@, #[trigger] l[q]),
            decreases p,
        {
            p = p - 1;
        }
        proof {
            lemma_paint_insert(l, x@, p as int);
        }
        members.insert(p, x);
        assert(object_views(members@) =~= l.insert(p as int, x@));
        j = j + 1;
    }
    assert(fv.subrange(0, found@.len() as int) =~= fv);
    proof {
        lemma_paint_sorted_len(fv);
    }
    let ghost ms = object_views(members@);
    let framed = frame(&members);
    proof {
        lemma_framed_by(*frame, &members, framed);
    }
    let (d, t, axis) = match framed {
        None => {
            return None;
        },
        Some(x) => x,
    };
    let mut geometry = Geometry { path_string: d, fill_rule: FillRule::NonZero, subpaths: Vec::new() };
    let ghost g0 = geometry@;
    assert(g0.subpaths =~= Seq::<crate::object::model::SubPathView>::empty());
    assert(g0 == (GeometryView { path_string: d@, fill_rule: FillRule::NonZero, subpaths: seq![] }));
    let _ = geometry.ensure_parsed();
    assert(geometry@ == ensured(g0));
    let order = next_order_key(scene);
    let mut f = Object::new(frame_id, order.as_str(), geometry);
    f.transform = t;
    f.clip = Some(false);
    f.layout = Some(Layout {
        axis,
        lanes: Lanes::Count { value: 1 },
        spacing: 0,
        align: Align { main: MainAlign::Start, cross: CrossAlign::Start },
    });
    assert(f@ == frame_object(frame_id@, next_order_spec(objs), d@, t, axis)) by {
        assert(f@.anchors =~= Seq::<AnchorView>::empty());
        assert(f@.comments =~= Seq::<CommentView>::empty());
        assert(f@.tags =~= Seq::<Seq<char>>::empty());
    }
    let keys = match generate_n_keys_between(None, None, members.len()) {
        Ok(k) => k,
        Err(_) => {
            return None;
        },
    };
    let ghost kv = spec_n_keys(None, None, members@.len() as nat)->0;
    proof {
        crate::fractional::lemma_n_keys(None, None, members@.len() as nat);
    }
    assert(string_views(keys@) == kv.map_values(|k: Seq<u8>| chars_of(k)));
    assert(keys@.len() == string_views(keys@).len());
    let mut ops: Vec<ObjectOp> = Vec::new();
    let ghost f_view = f@;
    let ins = ObjectOp::InsertObject { object: f };
    assert(op_view(ins) == ObjectOpView::InsertObject { object: f_view });
    let ghost ins_g = ins;
    ops.push(ins);
    proof {
        assert(ops@.drop_last() =~= Seq::<ObjectOp>::empty());
        assert(ops@.last() == ins_g);
        assert(op_views(Seq::<ObjectOp>::empty()) == Seq::<ObjectOpView>::empty());
        assert(op_views(ops@) =~= seq![ObjectOpView::InsertObject { object: f_view }] + Seq::new(
            0 as nat,
            |c: int| ObjectOpView::Reparent { id: ms[c].id, parent: Some(frame_id@), order: chars_of(kv[c]) },
        ));
    }
    let mut k: usize = 0;
    while k < members.len()
        invariant
            k <= members@.len(),
            ms == object_views(members@),
            string_views(keys@) == kv.map_values(|q: Seq<u8>| chars_of(q)),
            keys@.len() == members@.len(),
            kv.len() == members@.len(),
            op_views(ops@) == seq![ObjectOpView::InsertObject { object: f_view }] + Seq::new(
                k as nat,
                |c: int| ObjectOpView::Reparent { id: ms[c].id, parent: Some(frame_id@), order: chars_of(kv[c]) },
            ),
        decreases members@.len() - k,
    {
        let op = ObjectOp::Reparent { id: members[k].id.clone(), parent: Some(frame_id.to_owned()), order: keys[k].clone() };
        proof {
            assert(ms[k as int] == members@[k as int]@);
            assert(string_views(keys@)[k as int] == keys@[k as int]@);
            assert(kv.map_values(|q: Seq<u8>| chars_of(q))[k as int] == chars_of(kv[k as int]));
            assert(op_view(op) == ObjectOpView::Reparent { id: ms[k as int].id, parent: Some(frame_id@), order: chars_of(kv[k as int]) });
        }
        let ghost before = ops@;
        ops.push(op);
        proof {
            assert(ops@.drop_last() =~= before);
            assert(op_views(ops@) =~= seq![ObjectOpView::InsertObject { object: f_view }] + Seq::new(
                (k + 1) as nat,
                |c: int| ObjectOpView::Reparent { id: ms[c].id, parent: Some(frame_id@), order: chars_of(kv[c]) },
            ));
        }
        k = k + 1;
    }
    Some(ops)
}

} // verus!
