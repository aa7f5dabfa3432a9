//! Selection edits: duplicating objects at the canonical offset, and which
//! objects a body drag moves (the drag-root policy).

use vstd::prelude::*;

use crate::fractional::{
    key_above_spec, key_above, key_le, lemma_key_above, lemma_top_order, next_order_key, next_order_spec, top_order,
};
use crate::key_order::{lemma_lex_lt_transitive, lex_lt};
use vstd::utf8::encode_utf8;
use crate::object::model::{
    anchor_views, find_object, object_index, Anchor, AnchorView, LocalPoint, Object, ObjectScene, ObjectSceneView,
    ObjectSelection, ObjectSelectionView, ObjectView, Transform3x3,
};
use crate::object::op::{op_view, op_views, ObjectOp, ObjectOpView};
use crate::object::anchor_follow::{deformed_by, deforms, reprojected_by, reprojects};
use crate::object::cascade::{move_ops, moved_ops, root_ids, routed_by, routes, scene_graph};
use crate::text::{contains_str, copy_strings, digits, push_char, push_digits, push_str, strs};

verus! {

/// The roots of a move: one dragged object, or a whole multi-selection.
#[derive(Clone, Debug, PartialEq)]
pub enum MoveRoots {
    Single(String),
    Multi(Vec<String>),
}

pub enum MoveRootsView {
    Single(Seq<char>),
    Multi(Seq<Seq<char>>),
}

impl View for MoveRoots {
    type V = MoveRootsView;

    open spec fn view(&self) -> MoveRootsView {
        match self {
            MoveRoots::Single(id) => MoveRootsView::Single(id@),
            MoveRoots::Multi(ids) => MoveRootsView::Multi(strs(ids@)),
        }
    }
}

/// The roots a drag of `id` moves under `selection`.
pub open spec fn roots_for(selection: ObjectSelectionView, id: Seq<char>) -> MoveRootsView {
    match selection {
        ObjectSelectionView::Multi { ids } => if ids.contains(id) {
            MoveRootsView::Multi(ids)
        } else {
            MoveRootsView::Single(id)
        },
        _ => MoveRootsView::Single(id),
    }
}

/// The drag-root policy: a multi-selection that includes the picked `id`
/// moves every member; otherwise the picked object alone is the root.
pub fn move_roots_for(selection: &ObjectSelection, id: &str) -> (r: MoveRoots)
    ensures
        r@ == roots_for(selection@, id@),
{
    match selection {
        ObjectSelection::Multi { ids } => {
            if contains_str(ids, id) {
                MoveRoots::Multi(copy_strings(ids))
            } else {
                MoveRoots::Single(id.to_owned())
            }
        },
        _ => MoveRoots::Single(id.to_owned()),
    }
}

/// The canonical duplicate offset, `40.0_f64` logical px, as its bit pattern:
/// each clone lands this far right and down of its source.
pub const DUPLICATE_OFFSET_BITS: u64 = 0x4044_0000_0000_0000;

/// `shift` is defined on every transform and gives one result for each.
pub open spec fn shifts<S: Fn(&Transform3x3) -> Transform3x3>(shift: S) -> bool {
    &&& forall|t: &Transform3x3| #[trigger] shift.requires((t,))
    &&& forall|t: &Transform3x3, r1: Transform3x3, r2: Transform3x3|
        #[trigger] shift.ensures((t,), r1) && #[trigger] shift.ensures((t,), r2) ==> r1 == r2
}

/// The transform `shift` gives for `t`.
pub open spec fn shifted_by<S: Fn(&Transform3x3) -> Transform3x3>(shift: S) -> spec_fn(Transform3x3) -> Transform3x3 {
    |t: Transform3x3| choose|r: Transform3x3| shift.ensures((&t,), r)
}

proof fn lemma_shifted_by<S: Fn(&Transform3x3) -> Transform3x3>(shift: S, t: Transform3x3, r: Transform3x3)
    requires
        shifts(shift),
        shift.ensures((&t,), r),
    ensures
        (shifted_by(shift))(t) == r,
{
    let c = choose|c: Transform3x3| shift.ensures((&t,), c);
    assert(shift.ensures((&t,), c));
}

/// The id of the clone minted with index `n`: `{prefix}-{n}`.
pub open spec fn clone_id(prefix: Seq<char>, n: u32) -> Seq<char> {
    prefix.push('-') + digits(n as nat)
}

/// `n + 1`, wrapping to `0` after `u32::MAX`.
pub open spec fn next_index(n: u32) -> u32 {
    if n == u32::MAX {
        0
    } else {
        (n + 1) as u32
    }
}

/// `src` under a new id and order key, with transform `transform`.
pub open spec fn clone_of(src: ObjectView, id: Seq<char>, order: Seq<char>, transform: Transform3x3) -> ObjectView {
    ObjectView {
        id,
        order,
        parent: src.parent,
        geometry: src.geometry,
        transform,
        fill: src.fill,
        stroke: src.stroke,
        text: src.text,
        anchors: src.anchors,
        layout: src.layout,
        clip: src.clip,
        comments: src.comments,
        tags: src.tags,
    }
}

/// The inserts cloning each id of `ids` found among `objects`, in turn: the
/// next clone takes index `n` and order key `order`, and the one after takes
/// the following index and the key just above. Ids not found are skipped and
/// use up neither.
pub open spec fn duplicates(
    objects: Seq<ObjectView>,
    ids: Seq<Seq<char>>,
    prefix: Seq<char>,
    n: u32,
    order: Seq<char>,
    shift: spec_fn(Transform3x3) -> Transform3x3,
) -> Seq<ObjectOpView>
    decreases ids.len(),
{
    if ids.len() == 0 {
        seq![]
    } else {
        match find_object(objects, ids[0]) {
            None => duplicates(objects, ids.drop_first(), prefix, n, order, shift),
            Some(src) => seq![
                ObjectOpView::InsertObject {
                    object: clone_of(src, clone_id(prefix, n), order, shift(src.transform)),
                },
            ] + duplicates(objects, ids.drop_first(), prefix, next_index(n), key_above_spec(order), shift),
        }
    }
}

fn clone_name(prefix: &str, n: u32) -> (r: String)
    ensures
        r@ == clone_id(prefix@, n),
{
    let mut s = String::new();
    push_str(&mut s, prefix);
    push_char(&mut s, '-');
    push_digits(&mut s, n as u64);
    s
}

/// `insert-object` ops cloning each id of `ids` found in the scene, in input
/// order: the clone of a source gets the id `{id_prefix}-{n}` (`n` counting
/// up from `order_seed` over the clones made), an order key chained upward
/// from the one just above the scene's top, and the source's transform moved
/// by `shift` (the canonical [`DUPLICATE_OFFSET_BITS`] translate, computed in
/// `f64` by the caller). Unknown ids are skipped.
pub fn duplicate_ops<S: Fn(&Transform3x3) -> Transform3x3>(
    scene: &ObjectScene,
    ids: &[String],
    id_prefix: &str,
    order_seed: u32,
    shift: &S,
) -> (r: Vec<ObjectOp>)
    requires
        shifts(*shift),
    ensures
        op_views(r@) == duplicates(
            scene@.objects,
            strs(ids@),
            id_prefix@,
            order_seed,
            next_order_spec(scene@.objects),
            shifted_by(*shift),
        ),
{
    let ghost all = strs(ids@);
    let ghost objs = scene@.objects;
    let ghost f = shifted_by(*shift);
    let ghost goal = duplicates(objs, all, id_prefix@, order_seed, next_order_spec(objs), f);
    let mut ops: Vec<ObjectOp> = Vec::new();
    let mut prev_order = next_order_key(scene);
    let mut n: u32 = order_seed;
    let mut i: usize = 0;
    proof {
        assert(all.skip(0) =~= all);
        assert(op_views(ops@) =~= seq![]);
        assert(op_views(ops@) + duplicates(objs, all.skip(0), id_prefix@, n, prev_order@, f) =~= goal);
    }
    while i < ids.len()
        invariant
            i <= ids@.len(),
            all == strs(ids@),
            objs == scene@.objects,
            f == shifted_by(*shift),
            shifts(*shift),
            op_views(ops@) + duplicates(objs, all.skip(i as int), id_prefix@, n, prev_order@, f) == goal,
        decreases ids@.len() - i,
    {
        let ghost rest = all.skip(i as int);
        let ghost before = op_views(ops@);
        proof {
            assert(rest.drop_first() =~= all.skip(i + 1));
            assert(rest[0] == ids@[i as int]@);
        }
        match scene.get(ids[i].as_str()) {
            None => {},
            Some(src) => {
                let mut c: Object = src.copy_of();
                c.id = clone_name(id_prefix, n);
                c.order = prev_order.clone();
                let t = shift(&src.transform);
                proof {
                    lemma_shifted_by(*shift, src.transform, t);
                }
                c.transform = t;
                let ghost cv = c@;
                let ghost old_ops = ops@;
                ops.push(ObjectOp::InsertObject { object: c });
                proof {
                    assert(ops@.drop_last() =~= old_ops);
                    assert(op_views(ops@) == op_views(old_ops).push(op_view(ops@.last())));
                    assert(op_views(ops@) == before.push(ObjectOpView::InsertObject { object: cv }));
                    assert(cv == clone_of(src@, clone_id(id_prefix@, n), prev_order@, f(src@.transform)));
                }
                prev_order = key_above(prev_order.as_str());
                n = if n == u32::MAX {
                    0
                } else {
                    n + 1
                };
                proof {
                    let x = ObjectOpView::InsertObject { object: cv };
                    let tail = duplicates(objs, all.skip(i + 1), id_prefix@, n, prev_order@, f);
                    assert(before.push(x) + tail =~= before + (seq![x] + tail));
                }
            },
        }
        i = i + 1;
    }
    proof {
        assert(all.skip(ids@.len() as int) =~= Seq::<Seq<char>>::empty());
        assert(op_views(ops@) + Seq::<ObjectOpView>::empty() =~= op_views(ops@));
    }
    ops
}

/// The order key an insert carries.
pub open spec fn inserted_order(op: ObjectOpView) -> Seq<char> {
    match op {
        ObjectOpView::InsertObject { object } => object.order,
        _ => seq![],
    }
}

proof fn lemma_duplicates_chain(
    objects: Seq<ObjectView>,
    ids: Seq<Seq<char>>,
    prefix: Seq<char>,
    n: u32,
    order: Seq<char>,
    shift: spec_fn(Transform3x3) -> Transform3x3,
)
    ensures
        forall|i: int|
            0 <= i < duplicates(objects, ids, prefix, n, order, shift).len() ==> {
                &&& #[trigger] duplicates(objects, ids, prefix, n, order, shift)[i] is InsertObject
                &&& key_le(order, inserted_order(duplicates(objects, ids, prefix, n, order, shift)[i]))
            },
        forall|i: int, k: int|
            0 <= i < k < duplicates(objects, ids, prefix, n, order, shift).len() ==> lex_lt(
                encode_utf8(inserted_order(#[trigger] duplicates(objects, ids, prefix, n, order, shift)[i])),
                encode_utf8(inserted_order(#[trigger] duplicates(objects, ids, prefix, n, order, shift)[k])),
            ),
    decreases ids.len(),
{
    if ids.len() > 0 {
        let rest = ids.drop_first();
        match find_object(objects, ids[0]) {
            None => {
                lemma_duplicates_chain(objects, rest, prefix, n, order, shift);
            },
            Some(src) => {
                let o2 = key_above_spec(order);
                lemma_duplicates_chain(objects, rest, prefix, next_index(n), o2, shift);
                lemma_key_above(order);
                let d = duplicates(objects, ids, prefix, n, order, shift);
                let d2 = duplicates(objects, rest, prefix, next_index(n), o2, shift);
                assert(d.len() == d2.len() + 1);
                assert(inserted_order(d[0]) == order);
                assert forall|i: int| 0 < i < d.len() implies d[i] == d2[i - 1] by {}
                assert forall|i: int| 0 <= i < d.len() implies {
                    &&& #[trigger] d[i] is InsertObject
                    &&& key_le(order, inserted_order(d[i]))
                } by {
                    if i > 0 {
                        assert(d[i] == d2[i - 1]);
                        let oi = inserted_order(d2[i - 1]);
                        assert(key_le(o2, oi));
                        if o2 != oi {
                            lemma_lex_lt_transitive(encode_utf8(order), encode_utf8(o2), encode_utf8(oi));
                        }
                    }
                }
                assert forall|i: int, k: int| 0 <= i < k < d.len() implies lex_lt(
                    encode_utf8(inserted_order(#[trigger] d[i])),
                    encode_utf8(inserted_order(#[trigger] d[k])),
                ) by {
                    assert(d[k] == d2[k - 1]);
                    if i == 0 {
                        let ok = inserted_order(d2[k - 1]);
                        assert(key_le(o2, ok));
                        if o2 != ok {
                            lemma_lex_lt_transitive(encode_utf8(order), encode_utf8(o2), encode_utf8(ok));
                        }
                    } else {
                        assert(d[i] == d2[i - 1]);
                    }
                }
            },
        }
    }
}

/// Duplicating stacks the clones on top, in selection order: every clone's
/// order key sorts strictly after every order already in the scene, and each
/// clone's strictly after the one before it (in byte order, the order `String`
/// comparison decides).
pub proof fn lemma_duplicates_stack_on_top(
    objects: Seq<ObjectView>,
    ids: Seq<Seq<char>>,
    prefix: Seq<char>,
    n: u32,
    shift: spec_fn(Transform3x3) -> Transform3x3,
)
    ensures
        forall|i: int, j: int|
            0 <= i < duplicates(objects, ids, prefix, n, next_order_spec(objects), shift).len() && 0 <= j
                < objects.len() ==> lex_lt(
                encode_utf8(#[trigger] objects[j].order),
                encode_utf8(inserted_order(#[trigger] duplicates(objects, ids, prefix, n, next_order_spec(objects), shift)[i])),
            ),
        forall|i: int, k: int|
            0 <= i < k < duplicates(objects, ids, prefix, n, next_order_spec(objects), shift).len() ==> lex_lt(
                encode_utf8(inserted_order(#[trigger] duplicates(objects, ids, prefix, n, next_order_spec(objects), shift)[i])),
                encode_utf8(inserted_order(#[trigger] duplicates(objects, ids, prefix, n, next_order_spec(objects), shift)[k])),
            ),
{
    let start = next_order_spec(objects);
    let d = duplicates(objects, ids, prefix, n, start, shift);
    lemma_duplicates_chain(objects, ids, prefix, n, start, shift);
    lemma_top_order(objects);
    if objects.len() > 0 {
        let t = top_order(objects)->0;
        lemma_key_above(t);
        assert forall|i: int, j: int| 0 <= i < d.len() && 0 <= j < objects.len() implies lex_lt(
            encode_utf8(#[trigger] objects[j].order),
            encode_utf8(inserted_order(#[trigger] d[i])),
        ) by {
            let oj = objects[j].order;
            let oi = inserted_order(d[i]);
            assert(key_le(oj, t));
            assert(key_le(start, oi));
            if oj != t {
                lemma_lex_lt_transitive(encode_utf8(oj), encode_utf8(t), encode_utf8(start));
            }
            if start != oi {
                lemma_lex_lt_transitive(encode_utf8(oj), encode_utf8(start), encode_utf8(oi));
            }
        }
    }
}


/// The scene with the anchors of the object at `i` cleared.
pub open spec fn detached(s: ObjectSceneView, i: int) -> ObjectSceneView {
    ObjectSceneView {
        objects: s.objects.update(i, ObjectView { anchors: seq![], ..s.objects[i] }),
        ..s
    }
}

/// The ops of an Alt-detach drag of `id`: a `set-anchor` that clears the
/// object's anchors, then the [`move_ops`] of `id` alone, computed on the
/// scene with those anchors already cleared (so routing sees nothing pinning
/// it; followers anchored to the dragged object still follow). `[]` when `id`
/// is not in the scene.
pub fn detach_move_ops<
    M: Fn(&Object, &Vec<String>) -> Option<ObjectOp>,
    R: Fn(&Transform3x3, &Transform3x3, LocalPoint) -> (i64, i64),
    D: Fn(&str, Option<(i64, i64)>, Option<(i64, i64)>) -> Option<String>,
>(scene: &ObjectScene, id: &str, route: &M, reproject: &R, deform: &D) -> (r: Vec<ObjectOp>)
    requires
        routes(*route),
        reprojects(*reproject),
        deforms(*deform),
    ensures
        find_object(scene@.objects, id@) is None ==> r@.len() == 0,
        find_object(scene@.objects, id@) is Some ==> exists|i: int|
            object_index(scene@.objects, id@, i) && op_views(r@) == seq![
                ObjectOpView::SetAnchor { id: id@, anchors: seq![] },
            ] + moved_ops(
                detached(scene@, i).objects,
                scene_graph(detached(scene@, i).objects),
                seq![id@],
                routed_by(*route),
                reprojected_by(*reproject),
                deformed_by(*deform),
            ),
{
    match scene.position(id) {
        None => {
            proof {
                if find_object(scene@.objects, id@) is Some {
                    let c = choose|c: int| object_index(scene@.objects, id@, c);
                    assert(scene@.objects[c].id == id@);
                }
            }
            Vec::new()
        },
        Some(i) => {
            let mut copy = scene.copy_of();
            let mut o = scene.objects[i].copy_of();
            let no_anchors: Vec<Anchor> = Vec::new();
            o.anchors = no_anchors;
            assert(anchor_views(o.anchors@) =~= Seq::<AnchorView>::empty());
            assert(o@ == ObjectView { anchors: seq![], ..scene@.objects[i as int] });
            copy.objects.set(i, o);
            assert(copy@.objects =~= detached(scene@, i as int).objects);
            assert(copy@ == detached(scene@, i as int));
            let cleared: Vec<Anchor> = Vec::new();
            let op0 = ObjectOp::SetAnchor { id: id.to_owned(), anchors: cleared };
            assert(anchor_views(cleared@) =~= Seq::<AnchorView>::empty());
            assert(op_view(op0) == ObjectOpView::SetAnchor { id: id@, anchors: seq![] });
            let ghost g0 = op0;
            let mut ops: Vec<ObjectOp> = Vec::new();
            ops.push(op0);
            let mut rest = move_ops(&copy, &MoveRoots::Single(id.to_owned()), route, reproject, deform);
            let ghost first = ops@;
            proof {
                crate::object::cascade::lemma_views_append(first, rest@);
                assert(first.drop_last() =~= Seq::<ObjectOp>::empty());
                assert(first.last() == g0);
                assert(op_views(Seq::<ObjectOp>::empty()) == Seq::<ObjectOpView>::empty());
                assert(op_views(first) == op_views(first.drop_last()).push(op_view(g0)));
                assert(op_views(first) =~= seq![ObjectOpView::SetAnchor { id: id@, anchors: seq![] }]);
            }
            ops.append(&mut rest);
            ops
        },
    }
}

/// The ops a body drag of `id` commits, with the drag roots derived from
/// `selection` by [`move_roots_for`]: the cascade, then the follow edits.
pub fn move_ops_for_pick<
    M: Fn(&Object, &Vec<String>) -> Option<ObjectOp>,
    R: Fn(&Transform3x3, &Transform3x3, LocalPoint) -> (i64, i64),
    D: Fn(&str, Option<(i64, i64)>, Option<(i64, i64)>) -> Option<String>,
>(
    scene: &ObjectScene,
    selection: &ObjectSelection,
    id: &str,
    route: &M,
    reproject: &R,
    deform: &D,
) -> (r: Vec<ObjectOp>)
    requires
        routes(*route),
        reprojects(*reproject),
        deforms(*deform),
    ensures
        op_views(r@) == moved_ops(
                scene@.objects,
                scene_graph(scene@.objects),
                root_ids(roots_for(selection@, id@)),
                routed_by(*route),
                reprojected_by(*reproject),
                deformed_by(*deform),
            ),
{
    move_ops(scene, &move_roots_for(selection, id), route, reproject, deform)
}


/// Every op a duplication authors inserts a clone of a scene object whose id
/// was asked for: the clone equals its source in every field but its id, its
/// order key and its transform (the same parent, geometry, fill, stroke,
/// text, anchors, layout, clip, comments and tags), and its transform is the
/// source's moved by `shift`. Each id found gives exactly one clone, in the
/// order asked.
pub proof fn lemma_duplicates_clone_sources(
    objects: Seq<ObjectView>,
    ids: Seq<Seq<char>>,
    prefix: Seq<char>,
    n: u32,
    order: Seq<char>,
    shift: spec_fn(Transform3x3) -> Transform3x3,
)
    ensures
        ({
            let r = duplicates(objects, ids, prefix, n, order, shift);
            &&& r.len() == ids.filter(|id: Seq<char>| find_object(objects, id) is Some).len()
            &&& forall|k: int|
                0 <= k < r.len() ==> (#[trigger] r[k]) is InsertObject && exists|j: int|
                    #![trigger objects[j]]
                    0 <= j < objects.len() && ids.contains(objects[j].id) && r[k]->InsertObject_object == ObjectView {
                        id: r[k]->InsertObject_object.id,
                        order: r[k]->InsertObject_object.order,
                        transform: shift(objects[j].transform),
                        ..objects[j]
                    }
        }),
    decreases ids.len(),
{
    if ids.len() > 0 {
        let rest = ids.drop_first();
        let r = duplicates(objects, ids, prefix, n, order, shift);
        let found = |id: Seq<char>| find_object(objects, id) is Some;
        assert(ids =~= seq![ids[0]] + rest);
        rest.lemma_filter_prepend(ids[0], found);
        assert forall|x: Seq<char>| rest.contains(x) implies ids.contains(x) by {
            let w = choose|w: int| 0 <= w < rest.len() && rest[w] == x;
            assert(ids[w + 1] == x);
        }
        match find_object(objects, ids[0]) {
            None => {
                lemma_duplicates_clone_sources(objects, rest, prefix, n, order, shift);
            },
            Some(src) => {
                let nn = next_index(n);
                let no = key_above_spec(order);
                lemma_duplicates_clone_sources(objects, rest, prefix, nn, no, shift);
                let tail = duplicates(objects, rest, prefix, nn, no, shift);
                let c = choose|i: int| object_index(objects, ids[0], i);
                assert(object_index(objects, ids[0], c));
                assert(ids.contains(objects[c].id)) by {
                    assert(ids[0] == objects[c].id);
                }
                assert forall|k: int| 0 <= k < r.len() implies (#[trigger] r[k]) is InsertObject && exists|j: int|
                    #![trigger objects[j]]
                    0 <= j < objects.len() && ids.contains(objects[j].id) && r[k]->InsertObject_object == ObjectView {
                        id: r[k]->InsertObject_object.id,
                        order: r[k]->InsertObject_object.order,
                        transform: shift(objects[j].transform),
                        ..objects[j]
                    } by {
                    if k == 0 {
                        assert(objects[c] == src);
                    } else {
                        assert(r[k] == tail[k - 1]);
                    }
                }
            },
        }
    }
}

} // verus!
