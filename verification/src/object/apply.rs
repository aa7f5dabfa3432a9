//! Applying an [`ObjectOp`] to an [`ObjectScene`], returning the inverse op.
//!
//! Each apply returns the inverse op: a normal op that, applied through the
//! same path, undoes the edit (undo is a reverse op, not a state rollback, so
//! it composes with concurrent edits). On error the scene is left untouched;
//! `Batch` is atomic: it applies to a copy and commits only if every child op
//! succeeds.

use vstd::prelude::*;

use crate::graph::keep;
use crate::object::model::{anchor_views, object_index, object_views, opt_str, opt_view, Anchor, AnchorView, GeometryView, Object, ObjectId, ObjectScene, ObjectSceneView, ObjectView};
use crate::object::op::{op_view, op_views, resolved, FieldEdit, FieldEditView, ObjectOp, ObjectOpView};
use crate::object::path::{bad_path_message, ensured, parses};
use crate::text::{push_str, str_eq};

verus! {

#[derive(Clone, Debug, PartialEq, Eq)]
pub enum ApplyError {
    NotFound(ObjectId),
    DuplicateId(ObjectId),
    BadGeometry(String),
    Cycle(ObjectId),
    MissingAnchorTarget(ObjectId),
    Unsupported(&'static str),
}

pub enum ApplyErrorView {
    NotFound(Seq<char>),
    DuplicateId(Seq<char>),
    BadGeometry(Seq<char>),
    Cycle(Seq<char>),
    MissingAnchorTarget(Seq<char>),
    Unsupported(Seq<char>),
}

impl View for ApplyError {
    type V = ApplyErrorView;

    open spec fn view(&self) -> ApplyErrorView {
        match self {
            ApplyError::NotFound(id) => ApplyErrorView::NotFound(id@),
            ApplyError::DuplicateId(id) => ApplyErrorView::DuplicateId(id@),
            ApplyError::BadGeometry(e) => ApplyErrorView::BadGeometry(e@),
            ApplyError::Cycle(id) => ApplyErrorView::Cycle(id@),
            ApplyError::MissingAnchorTarget(id) => ApplyErrorView::MissingAnchorTarget(id@),
            ApplyError::Unsupported(what) => ApplyErrorView::Unsupported(what@),
        }
    }
}

pub open spec fn error_text(e: ApplyErrorView) -> Seq<char> {
    match e {
        ApplyErrorView::NotFound(id) => "object not found: "@ + id,
        ApplyErrorView::DuplicateId(id) => "duplicate object id: "@ + id,
        ApplyErrorView::BadGeometry(m) => "bad geometry: "@ + m,
        ApplyErrorView::Cycle(id) => "reparent would create a cycle: "@ + id,
        ApplyErrorView::MissingAnchorTarget(id) => "anchor target missing: "@ + id,
        ApplyErrorView::Unsupported(what) => "unsupported op: "@ + what,
    }
}

impl ApplyError {
    /// The human-readable message.
    pub fn message(&self) -> (r: String)
        ensures
            r@ == error_text(self@),
    {
        let (head, tail) = match self {
            ApplyError::NotFound(id) => ("object not found: ", id.as_str()),
            ApplyError::DuplicateId(id) => ("duplicate object id: ", id.as_str()),
            ApplyError::BadGeometry(e) => ("bad geometry: ", e.as_str()),
            ApplyError::Cycle(id) => ("reparent would create a cycle: ", id.as_str()),
            ApplyError::MissingAnchorTarget(id) => ("anchor target missing: ", id.as_str()),
            ApplyError::Unsupported(what) => ("unsupported op: ", *what),
        };
        let mut s = head.to_owned();
        push_str(&mut s, tail);
        s
    }
}

// ---------------------------------------------------------------------------
// What an op does, as a function of the scene
// ---------------------------------------------------------------------------

/// The position of the first object with id `id`.
pub open spec fn index_of(s: ObjectSceneView, id: Seq<char>) -> Option<int> {
    if exists|i: int| object_index(s.objects, id, i) {
        Some(choose|i: int| object_index(s.objects, id, i))
    } else {
        None
    }
}

pub open spec fn has_object(s: ObjectSceneView, id: Seq<char>) -> bool {
    exists|j: int| 0 <= j < s.objects.len() && s.objects[j].id == id
}

/// `s` with object `i` replaced by `o`.
pub open spec fn with_object(s: ObjectSceneView, i: int, o: ObjectView) -> ObjectSceneView {
    ObjectSceneView { objects: s.objects.update(i, o), ..s }
}

/// Some anchor of the list targets `id`.
pub open spec fn targets(anchors: Seq<AnchorView>, id: Seq<char>) -> bool {
    exists|k: int| 0 <= k < anchors.len() && anchors[k].target == id
}

/// The anchors that do not target `id`.
pub open spec fn drop_target(anchors: Seq<AnchorView>, id: Seq<char>) -> Seq<AnchorView> {
    keep(anchors, |a: AnchorView| a.target != id)
}

/// The first anchor target that names no object of the scene.
pub open spec fn first_missing(s: ObjectSceneView, anchors: Seq<AnchorView>) -> Option<Seq<char>>
    decreases anchors.len(),
{
    if anchors.len() == 0 {
        None
    } else if !has_object(s, anchors[0].target) {
        Some(anchors[0].target)
    } else {
        first_missing(s, anchors.drop_first())
    }
}

/// Walking up the parent chain from `cur` meets `id` (or runs longer than
/// the scene has objects).
pub open spec fn walk_reaches(objects: Seq<ObjectView>, id: Seq<char>, cur: Seq<char>, guard: nat) -> bool
    decreases objects.len() + 2 - guard,
{
    if cur == id {
        true
    } else if guard + 1 > objects.len() + 1 {
        true
    } else if exists|i: int| object_index(objects, cur, i) {
        let o = objects[choose|i: int| object_index(objects, cur, i)];
        match o.parent {
            Some(p) => walk_reaches(objects, id, p, guard + 1),
            None => false,
        }
    } else {
        false
    }
}

/// Re-homing `id` under `new_parent` would make a cycle: `new_parent` is `id`
/// or a descendant of it.
pub open spec fn would_cycle(objects: Seq<ObjectView>, id: Seq<char>, new_parent: Seq<char>) -> bool {
    id == new_parent || walk_reaches(objects, id, new_parent, 0)
}

/// The inverse edit of a field edit, from the field's old value.
pub open spec fn edit_from_old<V>(old: Option<V>) -> FieldEditView<V> {
    match old {
        Some(value) => FieldEditView::SetTo { value },
        None => FieldEditView::Clear,
    }
}

pub type Applied = Result<(ObjectSceneView, ObjectOpView), ApplyErrorView>;

/// An edit of object `id`: `NotFound` when there is none, else the object
/// replaced by `f` of it, with inverse `inv` of the old object.
pub open spec fn edit_object(
    s: ObjectSceneView,
    id: Seq<char>,
    f: spec_fn(ObjectView) -> ObjectView,
    inv: spec_fn(ObjectView) -> ObjectOpView,
) -> Applied {
    match index_of(s, id) {
        None => Err(ApplyErrorView::NotFound(id)),
        Some(i) => Ok((with_object(s, i, f(s.objects[i])), inv(s.objects[i]))),
    }
}

/// A peer after the object `id` is deleted: its anchors onto `id` are gone.
pub open spec fn prune(p: ObjectView, id: Seq<char>) -> ObjectView {
    if targets(p.anchors, id) {
        ObjectView { anchors: drop_target(p.anchors, id), ..p }
    } else {
        p
    }
}

/// The op that puts a peer's anchors back.
pub open spec fn restore_op(p: ObjectView) -> ObjectOpView {
    ObjectOpView::SetAnchor { id: p.id, anchors: p.anchors }
}

/// The scene after deleting object `i` (pruning the anchors that pointed at
/// it) and the inverse op: re-insert the object, then restore each pruned
/// peer's anchors.
pub open spec fn delete_at(s: ObjectSceneView, i: int) -> (ObjectSceneView, ObjectOpView) {
    let id = s.objects[i].id;
    let rest = s.objects.remove(i);
    let restores = keep(rest, |p: ObjectView| targets(p.anchors, id)).map_values(
        |p: ObjectView| restore_op(p),
    );
    let insert = ObjectOpView::InsertObject { object: s.objects[i] };
    (
        ObjectSceneView { objects: rest.map_values(|p: ObjectView| prune(p, id)), ..s },
        if restores.len() == 0 {
            insert
        } else {
            ObjectOpView::Batch { ops: seq![insert] + restores }
        },
    )
}

/// What applying `op` to `s` gives: the new scene and the inverse op, or the
/// error (the scene version is not bumped here).
pub open spec fn step(s: ObjectSceneView, op: ObjectOpView) -> Applied
    decreases op,
{
    match op {
        ObjectOpView::InsertObject { object } => if has_object(s, object.id) {
            Err(ApplyErrorView::DuplicateId(object.id))
        } else if !parses(object.geometry) {
            Err(ApplyErrorView::BadGeometry(bad_path_message()))
        } else {
            Ok(
                (
                    ObjectSceneView {
                        objects: s.objects.push(ObjectView { geometry: ensured(object.geometry), ..object }),
                        ..s
                    },
                    ObjectOpView::Delete { id: object.id },
                ),
            )
        },
        ObjectOpView::Delete { id } => match index_of(s, id) {
            None => Err(ApplyErrorView::NotFound(id)),
            Some(i) => Ok(delete_at(s, i)),
        },
        ObjectOpView::EditGeometry { id, geometry } => if !parses(geometry) {
            Err(ApplyErrorView::BadGeometry(bad_path_message()))
        } else {
            edit_object(
                s,
                id,
                |o: ObjectView| ObjectView { geometry: ensured(geometry), ..o },
                |o: ObjectView| ObjectOpView::EditGeometry { id, geometry: o.geometry },
            )
        },
        ObjectOpView::SetTransform { id, transform } => edit_object(
            s,
            id,
            |o: ObjectView| ObjectView { transform, ..o },
            |o: ObjectView| ObjectOpView::SetTransform { id, transform: o.transform },
        ),
        ObjectOpView::SetStyle { id, fill, stroke } => edit_object(
            s,
            id,
            |o: ObjectView|
                ObjectView {
                    fill: match fill {
                        Some(e) => resolved(e),
                        None => o.fill,
                    },
                    stroke: match stroke {
                        Some(e) => resolved(e),
                        None => o.stroke,
                    },
                    ..o
                },
            |o: ObjectView|
                ObjectOpView::SetStyle {
                    id,
                    fill: match fill {
                        Some(e) => Some(edit_from_old(o.fill)),
                        None => None,
                    },
                    stroke: match stroke {
                        Some(e) => Some(edit_from_old(o.stroke)),
                        None => None,
                    },
                },
        ),
        ObjectOpView::SetText { id, text } => edit_object(
            s,
            id,
            |o: ObjectView| ObjectView { text, ..o },
            |o: ObjectView| ObjectOpView::SetText { id, text: o.text },
        ),
        ObjectOpView::SetAnchor { id, anchors } => match first_missing(s, anchors) {
            Some(t) => Err(ApplyErrorView::MissingAnchorTarget(t)),
            None => edit_object(
                s,
                id,
                |o: ObjectView| ObjectView { anchors, ..o },
                |o: ObjectView| ObjectOpView::SetAnchor { id, anchors: o.anchors },
            ),
        },
        ObjectOpView::SetLayout { id, layout } => edit_object(
            s,
            id,
            |o: ObjectView| ObjectView { layout, ..o },
            |o: ObjectView| ObjectOpView::SetLayout { id, layout: o.layout },
        ),
        ObjectOpView::SetClip { id, clip } => edit_object(
            s,
            id,
            |o: ObjectView| ObjectView { clip, ..o },
            |o: ObjectView| ObjectOpView::SetClip { id, clip: o.clip },
        ),
        ObjectOpView::AddComment { id, comment } => edit_object(
            s,
            id,
            |o: ObjectView| ObjectView { comments: o.comments.push(comment), ..o },
            |o: ObjectView| ObjectOpView::SetComments { id, comments: o.comments },
        ),
        ObjectOpView::SetComments { id, comments } => edit_object(
            s,
            id,
            |o: ObjectView| ObjectView { comments, ..o },
            |o: ObjectView| ObjectOpView::SetComments { id, comments: o.comments },
        ),
        ObjectOpView::SetTags { id, tags } => edit_object(
            s,
            id,
            |o: ObjectView| ObjectView { tags, ..o },
            |o: ObjectView| ObjectOpView::SetTags { id, tags: o.tags },
        ),
        ObjectOpView::Reorder { id, order } => edit_object(
            s,
            id,
            |o: ObjectView| ObjectView { order, ..o },
            |o: ObjectView| ObjectOpView::Reorder { id, order: o.order },
        ),
        ObjectOpView::Reparent { id, parent, order } => if parent is Some && would_cycle(
            s.objects,
            id,
            parent->0,
        ) {
            Err(ApplyErrorView::Cycle(id))
        } else {
            edit_object(
                s,
                id,
                |o: ObjectView| ObjectView { parent, order, ..o },
                |o: ObjectView| ObjectOpView::Reparent { id, parent: o.parent, order: o.order },
            )
        },
        ObjectOpView::Split { .. } => Err(ApplyErrorView::Unsupported("split (OB3.S3)"@)),
        ObjectOpView::Merge { .. } => Err(ApplyErrorView::Unsupported("merge (OB3.S3)"@)),
        ObjectOpView::Batch { ops } => match steps(s, ops) {
            Err(e) => Err(e),
            Ok((s2, invs)) => Ok((s2, ObjectOpView::Batch { ops: invs.reverse() })),
        },
    }
}

/// Applying `ops` in order, collecting the inverses in application order;
/// the first error stops it.
pub open spec fn steps(s: ObjectSceneView, ops: Seq<ObjectOpView>) -> Result<
    (ObjectSceneView, Seq<ObjectOpView>),
    ApplyErrorView,
>
    decreases ops,
{
    if ops.len() == 0 {
        Ok((s, seq![]))
    } else {
        match step(s, ops[0]) {
            Err(e) => Err(e),
            Ok((s1, inv)) => match steps(s1, ops.drop_first()) {
                Err(e) => Err(e),
                Ok((s2, invs)) => Ok((s2, seq![inv] + invs)),
            },
        }
    }
}


// ---------------------------------------------------------------------------
// Applying
// ---------------------------------------------------------------------------

/// `r` and the scene after the call are what `expected` says: on success the
/// new scene and the inverse op, on error the error with the scene unchanged.
pub open spec fn applied_as(
    before: ObjectSceneView,
    after: ObjectSceneView,
    r: Result<ObjectOp, ApplyError>,
    expected: Applied,
) -> bool {
    match expected {
        Ok((s2, inv)) => r is Ok && after == s2 && op_view(r->Ok_0) == inv,
        Err(e) => r is Err && r->Err_0@ == e && after == before,
    }
}

proof fn lemma_op_views_index(s: Seq<ObjectOp>)
    ensures
        op_views(s).len() == s.len(),
        forall|i: int| 0 <= i < s.len() ==> #[trigger] op_views(s)[i] == op_view(s[i]),
    decreases s.len(),
{
    if s.len() > 0 {
        lemma_op_views_index(s.drop_last());
        assert forall|i: int| 0 <= i < s.len() implies #[trigger] op_views(s)[i] == op_view(s[i]) by {
            if i < s.len() - 1 {
                assert(op_views(s.drop_last())[i] == op_view(s.drop_last()[i]));
            }
        }
    }
}

/// The position of object `id`, or `NotFound`.
fn locate(scene: &ObjectScene, id: &String) -> (r: Option<usize>)
    ensures
        match r {
            Some(i) => index_of(scene@, id@) == Some(i as int) && i < scene.objects@.len(),
            None => index_of(scene@, id@) is None && !has_object(scene@, id@),
        },
{
    match scene.position(id.as_str()) {
        Some(i) => {
            proof {
                let c = choose|c: int| object_index(scene@.objects, id@, c);
                assert(c == i);
            }
            Some(i)
        },
        None => {
            proof {
                assert(!exists|c: int| object_index(scene@.objects, id@, c));
            }
            None
        },
    }
}

/// Takes object `idx` out of the scene for editing.
fn take_object(scene: &mut ObjectScene, idx: usize) -> (r: Object)
    requires
        idx < old(scene).objects@.len(),
    ensures
        r@ == old(scene)@.objects[idx as int],
        final(scene).objects@ == old(scene).objects@.remove(idx as int),
        final(scene).scene_version == old(scene).scene_version,
        final(scene).tags == old(scene).tags,
        final(scene).selection == old(scene).selection,
        final(scene).updated_at == old(scene).updated_at,
{
    scene.objects.remove(idx)
}

/// Puts an edited object back at `idx`.
fn put_object(scene: &mut ObjectScene, idx: usize, o: Object)
    requires
        idx <= old(scene).objects@.len(),
    ensures
        final(scene).objects@ == old(scene).objects@.insert(idx as int, o),
        final(scene).scene_version == old(scene).scene_version,
        final(scene).tags == old(scene).tags,
        final(scene).selection == old(scene).selection,
        final(scene).updated_at == old(scene).updated_at,
{
    scene.objects.insert(idx, o);
}

proof fn lemma_replace(before: ObjectSceneView, s: ObjectScene, idx: int, o: ObjectView)
    requires
        0 <= idx < before.objects.len(),
        object_views(s.objects@) == before.objects.remove(idx).insert(idx, o),
        s.scene_version == before.scene_version,
        crate::object::model::tag_list_views(s.tags@) == before.tags,
        s.selection@ == before.selection,
        s.updated_at@ == before.updated_at,
    ensures
        s@ == with_object(before, idx, o),
{
    assert(before.objects.remove(idx).insert(idx, o) =~= before.objects.update(idx, o));
}

fn edit_from_old_value<T: View>(old: Option<T>) -> (r: FieldEdit<T>)
    ensures
        r@ == edit_from_old(opt_view(old)),
{
    match old {
        Some(value) => FieldEdit::SetTo { value },
        None => FieldEdit::Clear,
    }
}


fn apply_set_transform(scene: &mut ObjectScene, id: String, transform: crate::object::model::Transform3x3) -> (r: Result<ObjectOp, ApplyError>)
    ensures
        applied_as(old(scene)@, final(scene)@, r, step(old(scene)@, ObjectOpView::SetTransform { id: id@, transform })),
{
    let idx = match locate(scene, &id) {
        Some(i) => i,
        None => return Err(ApplyError::NotFound(id)),
    };
    let ghost before = scene@;
    let mut o = take_object(scene, idx);
    let old = o.transform;
    o.transform = transform;
    let ghost ov = o@;
    put_object(scene, idx, o);
    proof {
        assert(object_views(scene.objects@) =~= before.objects.remove(idx as int).insert(idx as int, ov));
        lemma_replace(before, *scene, idx as int, ov);
    }
    Ok(ObjectOp::SetTransform { id, transform: old })
}


fn apply_set_text(scene: &mut ObjectScene, id: String, text: Option<crate::object::model::Text>) -> (r: Result<ObjectOp, ApplyError>)
    ensures
        applied_as(old(scene)@, final(scene)@, r, step(old(scene)@, ObjectOpView::SetText { id: id@, text: opt_view(text) })),
{
    let idx = match locate(scene, &id) {
        Some(i) => i,
        None => return Err(ApplyError::NotFound(id)),
    };
    let ghost before = scene@;
    let mut o = take_object(scene, idx);
    let old = o.text;
    o.text = text;
    let ghost ov = o@;
    put_object(scene, idx, o);
    proof {
        assert(object_views(scene.objects@) =~= before.objects.remove(idx as int).insert(idx as int, ov));
        lemma_replace(before, *scene, idx as int, ov);
    }
    Ok(ObjectOp::SetText { id, text: old })
}

fn apply_set_layout(scene: &mut ObjectScene, id: String, layout: Option<crate::object::model::Layout>) -> (r: Result<ObjectOp, ApplyError>)
    ensures
        applied_as(old(scene)@, final(scene)@, r, step(old(scene)@, ObjectOpView::SetLayout { id: id@, layout: layout })),
{
    let idx = match locate(scene, &id) {
        Some(i) => i,
        None => return Err(ApplyError::NotFound(id)),
    };
    let ghost before = scene@;
    let mut o = take_object(scene, idx);
    let old = o.layout;
    o.layout = layout;
    let ghost ov = o@;
    put_object(scene, idx, o);
    proof {
        assert(object_views(scene.objects@) =~= before.objects.remove(idx as int).insert(idx as int, ov));
        lemma_replace(before, *scene, idx as int, ov);
    }
    Ok(ObjectOp::SetLayout { id, layout: old })
}

fn apply_set_clip(scene: &mut ObjectScene, id: String, clip: Option<bool>) -> (r: Result<ObjectOp, ApplyError>)
    ensures
        applied_as(old(scene)@, final(scene)@, r, step(old(scene)@, ObjectOpView::SetClip { id: id@, clip: clip })),
{
    let idx = match locate(scene, &id) {
        Some(i) => i,
        None => return Err(ApplyError::NotFound(id)),
    };
    let ghost before = scene@;
    let mut o = take_object(scene, idx);
    let old = o.clip;
    o.clip = clip;
    let ghost ov = o@;
    put_object(scene, idx, o);
    proof {
        assert(object_views(scene.objects@) =~= before.objects.remove(idx as int).insert(idx as int, ov));
        lemma_replace(before, *scene, idx as int, ov);
    }
    Ok(ObjectOp::SetClip { id, clip: old })
}

fn apply_set_comments(scene: &mut ObjectScene, id: String, comments: Vec<crate::object::model::Comment>) -> (r: Result<ObjectOp, ApplyError>)
    ensures
        applied_as(old(scene)@, final(scene)@, r, step(old(scene)@, ObjectOpView::SetComments { id: id@, comments: crate::object::model::comment_views(comments@) })),
{
    let idx = match locate(scene, &id) {
        Some(i) => i,
        None => return Err(ApplyError::NotFound(id)),
    };
    let ghost before = scene@;
    let mut o = take_object(scene, idx);
    let old = o.comments;
    o.comments = comments;
    let ghost ov = o@;
    put_object(scene, idx, o);
    proof {
        assert(object_views(scene.objects@) =~= before.objects.remove(idx as int).insert(idx as int, ov));
        lemma_replace(before, *scene, idx as int, ov);
    }
    Ok(ObjectOp::SetComments { id, comments: old })
}

fn apply_set_tags(scene: &mut ObjectScene, id: String, tags: Vec<String>) -> (r: Result<ObjectOp, ApplyError>)
    ensures
        applied_as(old(scene)@, final(scene)@, r, step(old(scene)@, ObjectOpView::SetTags { id: id@, tags: crate::text::strs(tags@) })),
{
    let idx = match locate(scene, &id) {
        Some(i) => i,
        None => return Err(ApplyError::NotFound(id)),
    };
    let ghost before = scene@;
    let mut o = take_object(scene, idx);
    let old = o.tags;
    o.tags = tags;
    let ghost ov = o@;
    put_object(scene, idx, o);
    proof {
        assert(object_views(scene.objects@) =~= before.objects.remove(idx as int).insert(idx as int, ov));
        lemma_replace(before, *scene, idx as int, ov);
    }
    Ok(ObjectOp::SetTags { id, tags: old })
}

fn apply_reorder(scene: &mut ObjectScene, id: String, order: String) -> (r: Result<ObjectOp, ApplyError>)
    ensures
        applied_as(old(scene)@, final(scene)@, r, step(old(scene)@, ObjectOpView::Reorder { id: id@, order: order@ })),
{
    let idx = match locate(scene, &id) {
        Some(i) => i,
        None => return Err(ApplyError::NotFound(id)),
    };
    let ghost before = scene@;
    let mut o = take_object(scene, idx);
    let old = o.order;
    o.order = order;
    let ghost ov = o@;
    put_object(scene, idx, o);
    proof {
        assert(object_views(scene.objects@) =~= before.objects.remove(idx as int).insert(idx as int, ov));
        lemma_replace(before, *scene, idx as int, ov);
    }
    Ok(ObjectOp::Reorder { id, order: old })
}

fn apply_add_comment(scene: &mut ObjectScene, id: String, comment: crate::object::model::Comment) -> (r: Result<ObjectOp, ApplyError>)
    ensures
        applied_as(old(scene)@, final(scene)@, r, step(old(scene)@, ObjectOpView::AddComment { id: id@, comment: comment@ })),
{
    let idx = match locate(scene, &id) {
        Some(i) => i,
        None => return Err(ApplyError::NotFound(id)),
    };
    let ghost before = scene@;
    let mut o = take_object(scene, idx);
    let old = crate::object::model::copy_comments(&o.comments);
    let ghost cv = comment@;
    o.comments.push(comment);
    let ghost ov = o@;
    proof {
        assert(crate::object::model::comment_views(o.comments@) =~= before.objects[idx as int].comments.push(cv));
    }
    put_object(scene, idx, o);
    proof {
        assert(object_views(scene.objects@) =~= before.objects.remove(idx as int).insert(idx as int, ov));
        lemma_replace(before, *scene, idx as int, ov);
    }
    Ok(ObjectOp::SetComments { id, comments: old })
}

fn apply_set_style(
    scene: &mut ObjectScene,
    id: String,
    fill: Option<FieldEdit<crate::object::model::Fill>>,
    stroke: Option<FieldEdit<crate::object::model::Stroke>>,
) -> (r: Result<ObjectOp, ApplyError>)
    ensures
        applied_as(
            old(scene)@,
            final(scene)@,
            r,
            step(old(scene)@, ObjectOpView::SetStyle { id: id@, fill: opt_view(fill), stroke: opt_view(stroke) }),
        ),
{
    let idx = match locate(scene, &id) {
        Some(i) => i,
        None => return Err(ApplyError::NotFound(id)),
    };
    let ghost before = scene@;
    let mut o = take_object(scene, idx);
    let inv_fill = match fill {
        Some(edit) => {
            let old = o.fill;
            o.fill = edit.resolve();
            Some(edit_from_old_value(old))
        },
        None => None,
    };
    let inv_stroke = match stroke {
        Some(edit) => {
            let old = o.stroke;
            o.stroke = edit.resolve();
            Some(edit_from_old_value(old))
        },
        None => None,
    };
    let ghost ov = o@;
    put_object(scene, idx, o);
    proof {
        assert(object_views(scene.objects@) =~= before.objects.remove(idx as int).insert(idx as int, ov));
        lemma_replace(before, *scene, idx as int, ov);
    }
    Ok(ObjectOp::SetStyle { id, fill: inv_fill, stroke: inv_stroke })
}

fn apply_edit_geometry(scene: &mut ObjectScene, id: String, geometry: crate::object::model::Geometry) -> (r: Result<ObjectOp, ApplyError>)
    ensures
        applied_as(old(scene)@, final(scene)@, r, step(old(scene)@, ObjectOpView::EditGeometry { id: id@, geometry: geometry@ })),
{
    let mut geometry = geometry;
    match geometry.ensure_parsed() {
        Ok(()) => {},
        Err(e) => return Err(ApplyError::BadGeometry(e)),
    }
    let idx = match locate(scene, &id) {
        Some(i) => i,
        None => return Err(ApplyError::NotFound(id)),
    };
    let ghost before = scene@;
    let mut o = take_object(scene, idx);
    let old = o.geometry;
    o.geometry = geometry;
    let ghost ov = o@;
    put_object(scene, idx, o);
    proof {
        assert(object_views(scene.objects@) =~= before.objects.remove(idx as int).insert(idx as int, ov));
        lemma_replace(before, *scene, idx as int, ov);
    }
    Ok(ObjectOp::EditGeometry { id, geometry: old })
}

fn apply_insert(scene: &mut ObjectScene, object: Object) -> (r: Result<ObjectOp, ApplyError>)
    ensures
        applied_as(old(scene)@, final(scene)@, r, step(old(scene)@, ObjectOpView::InsertObject { object: object@ })),
{
    let mut object = object;
    match locate(scene, &object.id) {
        Some(_) => {
            proof {
                let i = choose|i: int| object_index(scene@.objects, object@.id, i);
                assert(scene@.objects[i].id == object@.id);
            }
            return Err(ApplyError::DuplicateId(object.id));
        },
        None => {},
    }
    let mut geometry = object.geometry;
    match geometry.ensure_parsed() {
        Ok(()) => {},
        Err(e) => return Err(ApplyError::BadGeometry(e)),
    }
    object.geometry = geometry;
    let id = object.id.clone();
    let ghost before = scene@;
    let ghost ov = object@;
    scene.objects.push(object);
    proof {
        assert(object_views(scene.objects@) =~= before.objects.push(ov));
    }
    Ok(ObjectOp::Delete { id })
}


fn apply_set_anchor(scene: &mut ObjectScene, id: String, anchors: Vec<Anchor>) -> (r: Result<ObjectOp, ApplyError>)
    ensures
        applied_as(old(scene)@, final(scene)@, r, step(old(scene)@, ObjectOpView::SetAnchor { id: id@, anchors: anchor_views(anchors@) })),
{
    let ghost av = anchor_views(anchors@);
    proof {
        assert(av.subrange(0, av.len() as int) =~= av);
    }
    let mut k: usize = 0;
    while k < anchors.len()
        invariant
            k <= anchors@.len(),
            av == anchor_views(anchors@),
            first_missing(scene@, av) == first_missing(scene@, av.subrange(k as int, av.len() as int)),
        decreases anchors@.len() - k,
    {
        let t = &anchors[k].target;
        proof {
            let rest = av.subrange(k as int, av.len() as int);
            assert(rest[0] == anchors@[k as int]@);
            assert(rest.drop_first() =~= av.subrange(k + 1, av.len() as int));
        }
        match locate(scene, t) {
            None => return Err(ApplyError::MissingAnchorTarget(t.clone())),
            Some(i) => {
                proof {
                    assert(scene@.objects[i as int].id == t@);
                }
            },
        }
        k = k + 1;
    }
    proof {
        assert(av.subrange(anchors@.len() as int, av.len() as int) =~= Seq::<AnchorView>::empty());
    }
    let idx = match locate(scene, &id) {
        Some(i) => i,
        None => return Err(ApplyError::NotFound(id)),
    };
    let ghost before = scene@;
    let mut o = take_object(scene, idx);
    let old = o.anchors;
    o.anchors = anchors;
    let ghost ov = o@;
    put_object(scene, idx, o);
    proof {
        assert(object_views(scene.objects@) =~= before.objects.remove(idx as int).insert(idx as int, ov));
        lemma_replace(before, *scene, idx as int, ov);
    }
    Ok(ObjectOp::SetAnchor { id, anchors: old })
}

/// Whether re-homing `id` under `new_parent` would make a cycle.
fn cycles(scene: &ObjectScene, id: &String, new_parent: &String) -> (r: bool)
    ensures
        r == would_cycle(scene@.objects, id@, new_parent@),
{
    if str_eq(id.as_str(), new_parent.as_str()) {
        return true;
    }
    let mut cur: String = new_parent.clone();
    let mut guard: u128 = 0;
    let n: u128 = scene.objects.len() as u128;
    loop
        invariant
            n == scene@.objects.len(),
            guard <= n + 1,
            n <= usize::MAX,
            walk_reaches(scene@.objects, id@, new_parent@, 0) == walk_reaches(scene@.objects, id@, cur@, guard as nat),
        decreases n + 2 - guard,
    {
        if str_eq(cur.as_str(), id.as_str()) {
            return true;
        }
        if guard > n {
            return true;
        }
        match locate(scene, &cur) {
            Some(i) => {
                proof {
                    let c = choose|c: int| object_index(scene@.objects, cur@, c);
                    assert(c == i);
                    assert(scene@.objects[i as int] == scene.objects@[i as int]@);
                }
                match &scene.objects[i].parent {
                    Some(p) => {
                        cur = p.clone();
                        guard = guard + 1;
                    },
                    None => return false,
                }
            },
            None => return false,
        }
    }
}

fn apply_reparent(scene: &mut ObjectScene, id: String, parent: Option<ObjectId>, order: String) -> (r: Result<ObjectOp, ApplyError>)
    ensures
        applied_as(
            old(scene)@,
            final(scene)@,
            r,
            step(old(scene)@, ObjectOpView::Reparent { id: id@, parent: opt_str(parent), order: order@ }),
        ),
{
    match &parent {
        Some(p) => {
            if cycles(scene, &id, p) {
                return Err(ApplyError::Cycle(id));
            }
        },
        None => {},
    }
    let idx = match locate(scene, &id) {
        Some(i) => i,
        None => return Err(ApplyError::NotFound(id)),
    };
    let ghost before = scene@;
    let mut o = take_object(scene, idx);
    let old_parent = o.parent;
    let old_order = o.order;
    o.parent = parent;
    o.order = order;
    let ghost ov = o@;
    put_object(scene, idx, o);
    proof {
        assert(object_views(scene.objects@) =~= before.objects.remove(idx as int).insert(idx as int, ov));
        lemma_replace(before, *scene, idx as int, ov);
    }
    Ok(ObjectOp::Reparent { id, parent: old_parent, order: old_order })
}


/// Whether some anchor of the list targets `id`.
fn anchors_target(anchors: &Vec<Anchor>, id: &str) -> (r: bool)
    ensures
        r == targets(anchor_views(anchors@), id@),
{
    let mut k: usize = 0;
    while k < anchors.len()
        invariant
            k <= anchors@.len(),
            forall|q: int| 0 <= q < k ==> anchor_views(anchors@)[q].target != id@,
        decreases anchors@.len() - k,
    {
        if str_eq(anchors[k].target.as_str(), id) {
            proof {
                assert(anchor_views(anchors@)[k as int].target == id@);
            }
            return true;
        }
        k = k + 1;
    }
    false
}

/// The anchors that do not target `id`, copied.
fn drop_target_vec(anchors: &Vec<Anchor>, id: &str) -> (r: Vec<Anchor>)
    ensures
        anchor_views(r@) == drop_target(anchor_views(anchors@), id@),
{
    let ghost av = anchor_views(anchors@);
    let ghost p = |a: AnchorView| a.target != id@;
    let mut r: Vec<Anchor> = Vec::new();
    let mut k: usize = 0;
    while k < anchors.len()
        invariant
            k <= anchors@.len(),
            av == anchor_views(anchors@),
            p == (|a: AnchorView| a.target != id@),
            anchor_views(r@) == keep(av.subrange(0, k as int), p),
        decreases anchors@.len() - k,
    {
        proof {
            crate::graph::lemma_keep_step(av, k as int, p);
            assert(av[k as int] == anchors@[k as int]@);
        }
        if !str_eq(anchors[k].target.as_str(), id) {
            let c = anchors[k].copy_of();
            let ghost before = r@;
            r.push(c);
            proof {
                assert(anchor_views(r@) =~= anchor_views(before).push(c@));
            }
        }
        k = k + 1;
    }
    proof {
        assert(av.subrange(0, av.len() as int) =~= av);
    }
    r
}

fn apply_delete(scene: &mut ObjectScene, id: String) -> (r: Result<ObjectOp, ApplyError>)
    ensures
        applied_as(old(scene)@, final(scene)@, r, step(old(scene)@, ObjectOpView::Delete { id: id@ })),
{
    let idx = match locate(scene, &id) {
        Some(i) => i,
        None => return Err(ApplyError::NotFound(id)),
    };
    let ghost before = scene@;
    let removed = take_object(scene, idx);
    let ghost rest = before.objects.remove(idx as int);
    let ghost pred = |p: ObjectView| targets(p.anchors, id@);
    proof {
        assert(object_views(scene.objects@) =~= rest);
        assert(removed@.id == id@);
    }
    let mut restores: Vec<ObjectOp> = Vec::new();
    let mut j: usize = 0;
    while j < scene.objects.len()
        invariant
            j <= scene.objects@.len(),
            rest.len() == scene.objects@.len(),
            pred == (|p: ObjectView| targets(p.anchors, id@)),
            forall|k: int| 0 <= k < j ==> #[trigger] object_views(scene.objects@)[k] == prune(rest[k], id@),
            forall|k: int| j <= k < rest.len() ==> #[trigger] object_views(scene.objects@)[k] == rest[k],
            op_views(restores@) == keep(rest.subrange(0, j as int), pred).map_values(|p: ObjectView| restore_op(p)),
            scene.scene_version == before.scene_version,
            crate::object::model::tag_list_views(scene.tags@) == before.tags,
            scene.selection@ == before.selection,
            scene.updated_at@ == before.updated_at,
        decreases scene.objects@.len() - j,
    {
        proof {
            crate::graph::lemma_keep_step(rest, j as int, pred);
            assert(object_views(scene.objects@)[j as int] == scene.objects@[j as int]@);
        }
        if anchors_target(&scene.objects[j].anchors, id.as_str()) {
            let ghost objs = scene.objects@;
            let mut peer = take_object(scene, j);
            let old_anchors = peer.anchors;
            let kept = drop_target_vec(&old_anchors, id.as_str());
            peer.anchors = kept;
            let peer_id = peer.id.clone();
            let ghost pv = peer@;
            put_object(scene, j, peer);
            let op = ObjectOp::SetAnchor { id: peer_id, anchors: old_anchors };
            let ghost rv = restores@;
            proof {
                assert(scene.objects@ =~= objs.update(j as int, scene.objects@[j as int]));
                assert(pv == prune(rest[j as int], id@));
                assert(op_view(op) == restore_op(rest[j as int]));
                assert(keep(rest.subrange(0, j + 1), pred).map_values(|p: ObjectView| restore_op(p)) =~= keep(
                    rest.subrange(0, j as int),
                    pred,
                ).map_values(|p: ObjectView| restore_op(p)).push(restore_op(rest[j as int])));
            }
            restores.push(op);
            proof {
                assert(restores@.drop_last() =~= rv);
                assert forall|k: int| 0 <= k < j + 1 implies #[trigger] object_views(scene.objects@)[k] == prune(rest[k], id@) by {
                    if k < j {
                        assert(object_views(scene.objects@)[k] == object_views(objs)[k]);
                    }
                }
                assert forall|k: int| j + 1 <= k < rest.len() implies #[trigger] object_views(scene.objects@)[k] == rest[k] by {
                    assert(object_views(scene.objects@)[k] == object_views(objs)[k]);
                }
            }
        } else {
            proof {
                assert(prune(rest[j as int], id@) == rest[j as int]);
            }
        }
        j = j + 1;
    }
    proof {
        assert(object_views(scene.objects@) =~= rest.map_values(|p: ObjectView| prune(p, id@)));
        assert(rest.subrange(0, rest.len() as int) =~= rest);
        lemma_op_views_index(restores@);
    }
    let ghost rem = removed@;
    if restores.len() == 0 {
        Ok(ObjectOp::InsertObject { object: removed })
    } else {
        let mut ops: Vec<ObjectOp> = Vec::new();
        ops.push(ObjectOp::InsertObject { object: removed });
        let ghost first = ops@;
        let ghost rs = restores@;
        ops.append(&mut restores);
        proof {
            assert(ops@ == first + rs);
            lemma_op_views_index(ops@);
            lemma_op_views_index(rs);
            assert(op_view(first[0]) == ObjectOpView::InsertObject { object: rem });
            assert forall|k: int| 0 <= k < op_views(ops@).len() implies #[trigger] op_views(ops@)[k] == (seq![
                ObjectOpView::InsertObject { object: rem },
            ] + op_views(rs))[k] by {
                if k == 0 {
                    assert(ops@[0] == first[0]);
                } else {
                    assert(ops@[k] == rs[k - 1]);
                }
            }
            assert(op_views(ops@) =~= seq![ObjectOpView::InsertObject { object: rem }] + op_views(rs));
        }
        Ok(ObjectOp::Batch { ops })
    }
}


/// `pre` followed by what `r` collected, or `r`'s error.
pub open spec fn after_prefix(
    pre: Seq<ObjectOpView>,
    r: Result<(ObjectSceneView, Seq<ObjectOpView>), ApplyErrorView>,
) -> Result<(ObjectSceneView, Seq<ObjectOpView>), ApplyErrorView> {
    match r {
        Err(e) => Err(e),
        Ok((s2, invs)) => Ok((s2, pre + invs)),
    }
}

/// The ops of `v` in reverse order.
fn reversed_ops(v: Vec<ObjectOp>) -> (r: Vec<ObjectOp>)
    ensures
        op_views(r@) == op_views(v@).reverse(),
{
    let ghost all = v@;
    let mut v = v;
    let mut r: Vec<ObjectOp> = Vec::new();
    while v.len() > 0
        invariant
            v@ == all.subrange(0, v@.len() as int),
            r@.len() == all.len() - v@.len(),
            forall|t: int| 0 <= t < r@.len() ==> #[trigger] r@[t] == all[all.len() - 1 - t],
        decreases v@.len(),
    {
        let x = v.pop().unwrap();
        r.push(x);
        proof {
            assert(v@ =~= all.subrange(0, v@.len() as int));
        }
    }
    proof {
        lemma_op_views_index(r@);
        lemma_op_views_index(all);
        assert(op_views(r@) =~= op_views(all).reverse());
    }
    r
}

/// Applies `op` and returns its inverse; the scene is untouched on error.
fn apply_inner(scene: &mut ObjectScene, op: ObjectOp) -> (r: Result<ObjectOp, ApplyError>)
    ensures
        applied_as(old(scene)@, final(scene)@, r, step(old(scene)@, op@)),
    decreases op, 1int,
{
    let ghost whole = op;
    match op {
        ObjectOp::InsertObject { object } => apply_insert(scene, object),
        ObjectOp::Delete { id } => apply_delete(scene, id),
        ObjectOp::EditGeometry { id, geometry } => apply_edit_geometry(scene, id, geometry),
        ObjectOp::SetTransform { id, transform } => apply_set_transform(scene, id, transform),
        ObjectOp::SetStyle { id, fill, stroke } => apply_set_style(scene, id, fill, stroke),
        ObjectOp::SetText { id, text } => apply_set_text(scene, id, text),
        ObjectOp::SetAnchor { id, anchors } => apply_set_anchor(scene, id, anchors),
        ObjectOp::SetLayout { id, layout } => apply_set_layout(scene, id, layout),
        ObjectOp::SetClip { id, clip } => apply_set_clip(scene, id, clip),
        ObjectOp::AddComment { id, comment } => apply_add_comment(scene, id, comment),
        ObjectOp::SetComments { id, comments } => apply_set_comments(scene, id, comments),
        ObjectOp::SetTags { id, tags } => apply_set_tags(scene, id, tags),
        ObjectOp::Reorder { id, order } => apply_reorder(scene, id, order),
        ObjectOp::Reparent { id, parent, order } => apply_reparent(scene, id, parent, order),
        ObjectOp::Split { .. } => Err(ApplyError::Unsupported("split (OB3.S3)")),
        ObjectOp::Merge { .. } => Err(ApplyError::Unsupported("merge (OB3.S3)")),
        ObjectOp::Batch { ops } => {
            proof {
                assert forall|i: int| 0 <= i < ops@.len() implies decreases_to!(whole => #[trigger] ops@[i]) by {
                    assert(decreases_to!(whole => ops));
                    assert(decreases_to!(ops => ops@));
                    assert(decreases_to!(ops@ => ops@[i]));
                }
            }
            apply_batch(scene, ops, Ghost(whole))
        },
    }
}

/// Applies `ops` in order to a copy of the scene and commits the copy only
/// when every op succeeds; the inverse is the batch of inverses in reverse.
fn apply_batch(scene: &mut ObjectScene, ops: Vec<ObjectOp>, Ghost(whole): Ghost<ObjectOp>) -> (r: Result<ObjectOp, ApplyError>)
    requires
        forall|i: int| 0 <= i < ops@.len() ==> decreases_to!(whole => #[trigger] ops@[i]),
    ensures
        applied_as(old(scene)@, final(scene)@, r, step(old(scene)@, ObjectOpView::Batch { ops: op_views(ops@) })),
    decreases whole, 0int,
{
    let ghost all = ops@;
    let ghost a = op_views(ops@);
    let n = ops.len();
    proof {
        lemma_op_views_index(all);
        assert(a.subrange(0, n as int) =~= a);
    }
    let mut working = scene.copy_of();
    let mut inverses: Vec<ObjectOp> = Vec::new();
    proof {
        assert(op_views(inverses@) =~= Seq::<ObjectOpView>::empty());
        match steps(working@, a) {
            Ok((s2, invs)) => {
                assert(Seq::<ObjectOpView>::empty() + invs =~= invs);
            },
            Err(e) => {},
        }
    }
    let mut rest = ops;
    let mut k: usize = 0;
    while k < n
        invariant
            n == all.len(),
            k <= n,
            a == op_views(all),
            all == ops@,
            rest@ == all.subrange(k as int, n as int),
            forall|i: int| 0 <= i < n ==> decreases_to!(whole => #[trigger] all[i]),
            forall|i: int| 0 <= i < n ==> #[trigger] op_views(all)[i] == op_view(all[i]),
            op_views(all).len() == all.len(),
            scene@ == old(scene)@,
            steps(scene@, a) == after_prefix(op_views(inverses@), steps(working@, a.subrange(k as int, n as int))),
        decreases n - k,
    {
        let child = rest.remove(0);
        proof {
            assert(child == all[k as int]);
            let tail = a.subrange(k as int, n as int);
            assert(tail[0] == op_view(child));
            assert(tail.drop_first() =~= a.subrange(k + 1, n as int));
        }
        let ghost w0 = working@;
        match apply_inner(&mut working, child) {
            Ok(inv) => {
                let ghost iv = inverses@;
                inverses.push(inv);
                proof {
                    assert(inverses@.drop_last() =~= iv);
                    let later = steps(working@, a.subrange(k + 1, n as int));
                    match later {
                        Ok((s2, invs)) => {
                            assert(op_views(iv) + (seq![op_view(inverses@.last())] + invs) =~= op_views(
                                inverses@,
                            ) + invs);
                        },
                        Err(e) => {},
                    }
                }
            },
            Err(e) => {
                return Err(e);
            },
        }
        k = k + 1;
    }
    proof {
        assert(a.subrange(n as int, n as int) =~= Seq::<ObjectOpView>::empty());
        assert(op_views(inverses@) + Seq::<ObjectOpView>::empty() =~= op_views(inverses@));
    }
    let rev = reversed_ops(inverses);
    *scene = working;
    Ok(ObjectOp::Batch { ops: rev })
}

/// The scene and inverse an op gives, with the scene version bumped on
/// success.
pub open spec fn applied(s: ObjectSceneView, op: ObjectOpView) -> Applied {
    match step(s, op) {
        Ok((s2, inv)) => Ok((ObjectSceneView { scene_version: (s.scene_version + 1) as u64, ..s2 }, inv)),
        Err(e) => Err(e),
    }
}

/// Applies `op` to `scene`, returning the inverse op for undo. On error the
/// scene is left untouched; on success its version goes up by one.
pub fn apply_object_op(scene: &mut ObjectScene, op: ObjectOp) -> (r: Result<ObjectOp, ApplyError>)
    requires
        old(scene).scene_version < u64::MAX,
    ensures
        applied_as(old(scene)@, final(scene)@, r, applied(old(scene)@, op@)),
{
    let version = scene.scene_version;
    match apply_inner(scene, op) {
        Ok(inv) => {
            scene.scene_version = version + 1;
            Ok(inv)
        },
        Err(e) => Err(e),
    }
}


pub(crate) proof fn lemma_step_version(s: ObjectSceneView, op: ObjectOpView)
    ensures
        step(s, op) matches Ok((s2, inv)) ==> s2.scene_version == s.scene_version,
    decreases op,
{
    match op {
        ObjectOpView::Batch { ops } => {
            lemma_steps_version(s, ops);
        },
        _ => {},
    }
}

proof fn lemma_steps_version(s: ObjectSceneView, ops: Seq<ObjectOpView>)
    ensures
        steps(s, ops) matches Ok((s2, invs)) ==> s2.scene_version == s.scene_version,
    decreases ops,
{
    if ops.len() > 0 {
        lemma_step_version(s, ops[0]);
        match step(s, ops[0]) {
            Ok((s1, inv)) => {
                lemma_steps_version(s1, ops.drop_first());
            },
            Err(e) => {},
        }
    }
}

/// Applying `ops` one after another through [`apply_object_op`]: the scene
/// reached and either every inverse (last op's first) or the first error.
/// The ops before a failing one stay applied.
pub open spec fn applied_all(s: ObjectSceneView, ops: Seq<ObjectOpView>) -> (
    ObjectSceneView,
    Result<Seq<ObjectOpView>, ApplyErrorView>,
)
    decreases ops.len(),
{
    if ops.len() == 0 {
        (s, Ok(seq![]))
    } else {
        match applied(s, ops[0]) {
            Err(e) => (s, Err(e)),
            Ok((s1, inv)) => {
                let (s2, r) = applied_all(s1, ops.drop_first());
                (
                    s2,
                    match r {
                        Ok(invs) => Ok(invs.push(inv)),
                        Err(e) => Err(e),
                    },
                )
            },
        }
    }
}

/// `r` with `suffix` after its inverses.
pub open spec fn with_suffix(
    r: (ObjectSceneView, Result<Seq<ObjectOpView>, ApplyErrorView>),
    suffix: Seq<ObjectOpView>,
) -> (ObjectSceneView, Result<Seq<ObjectOpView>, ApplyErrorView>) {
    (
        r.0,
        match r.1 {
            Ok(invs) => Ok(invs + suffix),
            Err(e) => Err(e),
        },
    )
}

proof fn lemma_sequence_ok(
    s0: ObjectSceneView,
    a: Seq<ObjectOpView>,
    k: int,
    cur: ObjectSceneView,
    next: ObjectSceneView,
    iv: Seq<ObjectOp>,
    nv: Seq<ObjectOp>,
)
    requires
        0 <= k < a.len(),
        applied_all(s0, a) == with_suffix(applied_all(cur, a.subrange(k, a.len() as int)), op_views(iv).reverse()),
        nv.len() == iv.len() + 1,
        nv.drop_last() == iv,
        applied(cur, a[k]) == Ok::<(ObjectSceneView, ObjectOpView), ApplyErrorView>((next, op_view(nv.last()))),
    ensures
        applied_all(s0, a) == with_suffix(applied_all(next, a.subrange(k + 1, a.len() as int)), op_views(nv).reverse()),
{
    let tail = a.subrange(k, a.len() as int);
    assert(tail[0] == a[k]);
    assert(tail.drop_first() =~= a.subrange(k + 1, a.len() as int));
    assert(nv =~= iv.push(nv.last()));
    assert(op_views(nv) == op_views(iv).push(op_view(nv.last())));
    let later = applied_all(next, a.subrange(k + 1, a.len() as int));
    match later.1 {
        Ok(invs) => {
            assert(invs.push(op_view(nv.last())) + op_views(iv).reverse() =~= invs + op_views(nv).reverse());
        },
        Err(e) => {},
    }
}

proof fn lemma_sequence_err(
    s0: ObjectSceneView,
    a: Seq<ObjectOpView>,
    k: int,
    cur: ObjectSceneView,
    ivs: Seq<ObjectOpView>,
)
    requires
        0 <= k < a.len(),
        applied_all(s0, a) == with_suffix(applied_all(cur, a.subrange(k, a.len() as int)), ivs.reverse()),
        applied(cur, a[k]) is Err,
    ensures
        applied_all(s0, a) == (cur, Err::<Seq<ObjectOpView>, ApplyErrorView>(applied(cur, a[k])->Err_0)),
{
    let tail = a.subrange(k, a.len() as int);
    assert(tail[0] == a[k]);
}

/// Applies each op in order, collecting the inverses last-first so the whole
/// sequence can be undone as a unit. Stops at the first error, leaving the
/// earlier ops applied.
pub fn apply_sequence(scene: &mut ObjectScene, ops: Vec<ObjectOp>) -> (r: Result<Vec<ObjectOp>, ApplyError>)
    requires
        old(scene).scene_version + ops@.len() <= u64::MAX,
    ensures
        final(scene)@ == applied_all(old(scene)@, op_views(ops@)).0,
        match applied_all(old(scene)@, op_views(ops@)).1 {
            Ok(invs) => r is Ok && op_views(r->Ok_0@) == invs,
            Err(e) => r is Err && r->Err_0@ == e,
        },
{
    let ghost all = ops@;
    let ghost a = op_views(ops@);
    let n = ops.len();
    proof {
        lemma_op_views_index(all);
        assert(a.subrange(0, n as int) =~= a);
        let r0 = applied_all(scene@, a);
        match r0.1 {
            Ok(invs) => {
                assert(invs + Seq::<ObjectOpView>::empty() =~= invs);
            },
            Err(e) => {},
        }
    }
    let mut inverses: Vec<ObjectOp> = Vec::new();
    let mut rest = ops;
    let mut k: usize = 0;
    proof {
        assert(op_views(inverses@).reverse() =~= Seq::<ObjectOpView>::empty());
    }
    while k < n
        invariant
            n == all.len(),
            k <= n,
            a == op_views(all),
            all == ops@,
            rest@ == all.subrange(k as int, n as int),
            forall|i: int| 0 <= i < n ==> #[trigger] op_views(all)[i] == op_view(all[i]),
            op_views(all).len() == all.len(),
            scene.scene_version == old(scene).scene_version + k,
            old(scene).scene_version + n <= u64::MAX,
            applied_all(old(scene)@, a) == with_suffix(
                applied_all(scene@, a.subrange(k as int, n as int)),
                op_views(inverses@).reverse(),
            ),
        decreases n - k,
    {
        let child = rest.remove(0);
        proof {
            assert(child == all[k as int]);
            lemma_step_version(scene@, op_view(child));
        }
        let ghost iv = inverses@;
        let ghost cur = scene@;
        match apply_object_op(scene, child) {
            Ok(inv) => {
                inverses.push(inv);
                proof {
                    assert(inverses@.drop_last() =~= iv);
                    lemma_sequence_ok(old(scene)@, a, k as int, cur, scene@, iv, inverses@);
                }
            },
            Err(e) => {
                proof {
                    lemma_sequence_err(old(scene)@, a, k as int, cur, op_views(iv));
                }
                return Err(e);
            },
        }
        k = k + 1;
    }
    proof {
        assert(a.subrange(n as int, n as int) =~= Seq::<ObjectOpView>::empty());
        assert(Seq::<ObjectOpView>::empty() + op_views(inverses@).reverse() =~= op_views(inverses@).reverse());
    }
    Ok(reversed_ops(inverses))
}


// ---------------------------------------------------------------------------
// Laws of undo
// ---------------------------------------------------------------------------

proof fn lemma_index_after_update(s: ObjectSceneView, id: Seq<char>, i: int, o2: ObjectView)
    requires
        index_of(s, id) == Some(i),
        o2.id == id,
    ensures
        index_of(with_object(s, i, o2), id) == Some(i),
{
    let c = choose|c: int| object_index(s.objects, id, c);
    assert(object_index(s.objects, id, c));
    let t = with_object(s, i, o2);
    assert(object_index(t.objects, id, i));
    let d = choose|d: int| object_index(t.objects, id, d);
    assert(d == i);
}

proof fn lemma_restore_object(s: ObjectSceneView, i: int, o2: ObjectView)
    requires
        0 <= i < s.objects.len(),
    ensures
        with_object(with_object(s, i, o2), i, s.objects[i]) == s,
{
    assert(with_object(with_object(s, i, o2), i, s.objects[i]).objects =~= s.objects);
}

/// The edits that set one field of one object.
pub open spec fn is_field_edit(op: ObjectOpView) -> bool {
    ||| op is SetTransform
    ||| op is SetStyle
    ||| op is SetText
    ||| op is SetLayout
    ||| op is SetClip
    ||| op is AddComment
    ||| op is SetComments
    ||| op is SetTags
    ||| op is Reorder
}

/// Undoing a field edit restores the scene: when a transform, style, text,
/// layout, clip, comment, tags or order edit applies, applying the inverse
/// it returns succeeds and gives back the scene exactly as it was.
pub proof fn lemma_field_edit_undo(s: ObjectSceneView, op: ObjectOpView)
    requires
        is_field_edit(op),
        step(s, op) is Ok,
    ensures
        step(step(s, op)->Ok_0.0, step(s, op)->Ok_0.1) is Ok,
        step(step(s, op)->Ok_0.0, step(s, op)->Ok_0.1)->Ok_0.0 == s,
{
    let (s1, inv) = step(s, op)->Ok_0;
    match op {
        ObjectOpView::SetTransform { id, transform } => {
            let i = index_of(s, id)->0;
            let o = s.objects[i];
            lemma_index_after_update(s, id, i, ObjectView { transform, ..o });
            lemma_restore_object(s, i, ObjectView { transform, ..o });
        },
        ObjectOpView::SetStyle { id, fill, stroke } => {
            let i = index_of(s, id)->0;
            let o = s.objects[i];
            let o2 = ObjectView {
                fill: match fill {
                    Some(e) => resolved(e),
                    None => o.fill,
                },
                stroke: match stroke {
                    Some(e) => resolved(e),
                    None => o.stroke,
                },
                ..o
            };
            lemma_index_after_update(s, id, i, o2);
            lemma_restore_object(s, i, o2);
            assert(match fill {
                Some(e) => resolved(edit_from_old(o.fill)) == o.fill,
                None => true,
            });
            assert(match stroke {
                Some(e) => resolved(edit_from_old(o.stroke)) == o.stroke,
                None => true,
            });
            let o3 = ObjectView {
                fill: match fill {
                    Some(e) => resolved(edit_from_old(o.fill)),
                    None => o2.fill,
                },
                stroke: match stroke {
                    Some(e) => resolved(edit_from_old(o.stroke)),
                    None => o2.stroke,
                },
                ..o2
            };
            assert(o3 == o);
        },
        ObjectOpView::SetText { id, text } => {
            let i = index_of(s, id)->0;
            let o = s.objects[i];
            lemma_index_after_update(s, id, i, ObjectView { text, ..o });
            lemma_restore_object(s, i, ObjectView { text, ..o });
        },
        ObjectOpView::SetLayout { id, layout } => {
            let i = index_of(s, id)->0;
            let o = s.objects[i];
            lemma_index_after_update(s, id, i, ObjectView { layout, ..o });
            lemma_restore_object(s, i, ObjectView { layout, ..o });
        },
        ObjectOpView::SetClip { id, clip } => {
            let i = index_of(s, id)->0;
            let o = s.objects[i];
            lemma_index_after_update(s, id, i, ObjectView { clip, ..o });
            lemma_restore_object(s, i, ObjectView { clip, ..o });
        },
        ObjectOpView::AddComment { id, comment } => {
            let i = index_of(s, id)->0;
            let o = s.objects[i];
            lemma_index_after_update(s, id, i, ObjectView { comments: o.comments.push(comment), ..o });
            lemma_restore_object(s, i, ObjectView { comments: o.comments.push(comment), ..o });
        },
        ObjectOpView::SetComments { id, comments } => {
            let i = index_of(s, id)->0;
            let o = s.objects[i];
            lemma_index_after_update(s, id, i, ObjectView { comments, ..o });
            lemma_restore_object(s, i, ObjectView { comments, ..o });
        },
        ObjectOpView::SetTags { id, tags } => {
            let i = index_of(s, id)->0;
            let o = s.objects[i];
            lemma_index_after_update(s, id, i, ObjectView { tags, ..o });
            lemma_restore_object(s, i, ObjectView { tags, ..o });
        },
        ObjectOpView::Reorder { id, order } => {
            let i = index_of(s, id)->0;
            let o = s.objects[i];
            lemma_index_after_update(s, id, i, ObjectView { order, ..o });
            lemma_restore_object(s, i, ObjectView { order, ..o });
        },
        _ => {},
    }
}


/// Undoing an insert removes the object again: when the scene holds no
/// anchor onto the new object's id, applying the inverse of a successful
/// insert gives back the scene exactly as it was.
pub proof fn lemma_insert_undo(s: ObjectSceneView, object: ObjectView)
    requires
        step(s, ObjectOpView::InsertObject { object }) is Ok,
        forall|j: int| 0 <= j < s.objects.len() ==> !targets(#[trigger] s.objects[j].anchors, object.id),
    ensures
        ({
            let (s1, inv) = step(s, ObjectOpView::InsertObject { object })->Ok_0;
            step(s1, inv) is Ok && step(s1, inv)->Ok_0.0 == s
        }),
{
    let (s1, inv) = step(s, ObjectOpView::InsertObject { object })->Ok_0;
    let n = s.objects.len() as int;
    assert(s1.objects[n].id == object.id);
    assert(object_index(s1.objects, object.id, n)) by {
        assert forall|j: int| 0 <= j < n implies s1.objects[j].id != object.id by {
            assert(s1.objects[j] == s.objects[j]);
        }
    }
    let c = choose|c: int| object_index(s1.objects, object.id, c);
    assert(c == n);
    assert(s1.objects.remove(n) =~= s.objects);
    let rest = s1.objects.remove(n);
    assert(rest.map_values(|p: ObjectView| prune(p, object.id)) =~= s.objects);
    assert(keep(rest, |p: ObjectView| targets(p.anchors, object.id)).len() == 0) by {
        crate::graph::lemma_keep_none(rest, |p: ObjectView| targets(p.anchors, object.id));
    }
}

proof fn lemma_no_missing(s: ObjectSceneView, anchors: Seq<AnchorView>)
    requires
        forall|k: int| 0 <= k < anchors.len() ==> has_object(s, #[trigger] anchors[k].target),
    ensures
        first_missing(s, anchors) is None,
    decreases anchors.len(),
{
    if anchors.len() > 0 {
        assert(has_object(s, anchors[0].target));
        assert forall|k: int| 0 <= k < anchors.drop_first().len() implies has_object(
            s,
            #[trigger] anchors.drop_first()[k].target,
        ) by {
            assert(anchors.drop_first()[k] == anchors[k + 1]);
        }
        lemma_no_missing(s, anchors.drop_first());
    }
}

/// Undoing an anchor edit restores the scene when the object's previous
/// anchors all point at objects of the scene.
pub proof fn lemma_set_anchor_undo(s: ObjectSceneView, id: Seq<char>, anchors: Seq<AnchorView>)
    requires
        step(s, ObjectOpView::SetAnchor { id, anchors }) is Ok,
        forall|k: int|
            0 <= k < s.objects[index_of(s, id)->0].anchors.len() ==> has_object(
                s,
                #[trigger] s.objects[index_of(s, id)->0].anchors[k].target,
            ),
    ensures
        ({
            let (s1, inv) = step(s, ObjectOpView::SetAnchor { id, anchors })->Ok_0;
            step(s1, inv) is Ok && step(s1, inv)->Ok_0.0 == s
        }),
{
    let i = index_of(s, id)->0;
    let o = s.objects[i];
    let o2 = ObjectView { anchors, ..o };
    let s1 = with_object(s, i, o2);
    lemma_index_after_update(s, id, i, o2);
    lemma_restore_object(s, i, o2);
    assert forall|k: int| 0 <= k < o.anchors.len() implies has_object(s1, #[trigger] o.anchors[k].target) by {
        let t = o.anchors[k].target;
        let j = choose|j: int| 0 <= j < s.objects.len() && s.objects[j].id == t;
        if j == i {
            assert(s1.objects[j].id == t);
        } else {
            assert(s1.objects[j] == s.objects[j]);
        }
    }
    lemma_no_missing(s1, o.anchors);
}

/// Undoing a geometry edit restores the scene when the object's previous
/// geometry already held its subpaths.
pub proof fn lemma_edit_geometry_undo(s: ObjectSceneView, id: Seq<char>, geometry: GeometryView)
    requires
        step(s, ObjectOpView::EditGeometry { id, geometry }) is Ok,
        s.objects[index_of(s, id)->0].geometry.subpaths.len() > 0,
    ensures
        ({
            let (s1, inv) = step(s, ObjectOpView::EditGeometry { id, geometry })->Ok_0;
            step(s1, inv) is Ok && step(s1, inv)->Ok_0.0 == s
        }),
{
    let i = index_of(s, id)->0;
    let o = s.objects[i];
    let o2 = ObjectView { geometry: ensured(geometry), ..o };
    lemma_index_after_update(s, id, i, o2);
    lemma_restore_object(s, i, o2);
}

/// Undoing a reparent restores the scene whenever the inverse is not refused
/// as a cycle; in particular, an object that sat at the canvas root always
/// goes back there exactly.
pub proof fn lemma_reparent_undo(s: ObjectSceneView, id: Seq<char>, parent: Option<Seq<char>>, order: Seq<char>)
    requires
        step(s, ObjectOpView::Reparent { id, parent, order }) is Ok,
    ensures
        ({
            let (s1, inv) = step(s, ObjectOpView::Reparent { id, parent, order })->Ok_0;
            &&& s.objects[index_of(s, id)->0].parent is None ==> step(s1, inv) is Ok
            &&& step(s1, inv) is Ok ==> step(s1, inv)->Ok_0.0 == s
        }),
{
    let i = index_of(s, id)->0;
    let o = s.objects[i];
    let o2 = ObjectView { parent, order, ..o };
    lemma_index_after_update(s, id, i, o2);
    lemma_restore_object(s, i, o2);
}

/// Applying `a` then `b` is applying `a + b`.
pub(crate) proof fn lemma_steps_append(s: ObjectSceneView, a: Seq<ObjectOpView>, b: Seq<ObjectOpView>)
    ensures
        steps(s, a + b) == match steps(s, a) {
            Err(e) => Err(e),
            Ok((s1, ia)) => match steps(s1, b) {
                Err(e) => Err(e),
                Ok((s2, ib)) => Ok((s2, ia + ib)),
            },
        },
    decreases a.len(),
{
    if a.len() == 0 {
        assert(a + b =~= b);
        match steps(s, b) {
            Err(e) => {},
            Ok((s2, ib)) => {
                assert(Seq::<ObjectOpView>::empty() + ib =~= ib);
            },
        }
    } else {
        assert((a + b)[0] == a[0]);
        assert((a + b).drop_first() =~= a.drop_first() + b);
        match step(s, a[0]) {
            Err(e) => {},
            Ok((s1, inv)) => {
                lemma_steps_append(s1, a.drop_first(), b);
                match steps(s1, a.drop_first()) {
                    Err(e) => {},
                    Ok((sa, ia)) => match steps(sa, b) {
                        Err(e) => {},
                        Ok((s2, ib)) => {
                            assert(seq![inv] + (ia + ib) =~= (seq![inv] + ia) + ib);
                        },
                    },
                }
            },
        }
    }
}

proof fn lemma_field_steps_undo(s: ObjectSceneView, ops: Seq<ObjectOpView>)
    requires
        forall|k: int| 0 <= k < ops.len() ==> is_field_edit(#[trigger] ops[k]),
        steps(s, ops) is Ok,
    ensures
        steps(steps(s, ops)->Ok_0.0, steps(s, ops)->Ok_0.1.reverse()) is Ok,
        steps(steps(s, ops)->Ok_0.0, steps(s, ops)->Ok_0.1.reverse())->Ok_0.0 == s,
    decreases ops.len(),
{
    if ops.len() == 0 {
        assert(Seq::<ObjectOpView>::empty().reverse() =~= Seq::<ObjectOpView>::empty());
    } else {
        let (s1, inv) = step(s, ops[0])->Ok_0;
        let rest = ops.drop_first();
        assert forall|k: int| 0 <= k < rest.len() implies is_field_edit(#[trigger] rest[k]) by {
            assert(rest[k] == ops[k + 1]);
        }
        lemma_field_steps_undo(s1, rest);
        lemma_field_edit_undo(s, ops[0]);
        let (s2, invs) = steps(s1, rest)->Ok_0;
        assert(steps(s, ops)->Ok_0.1 == seq![inv] + invs);
        assert((seq![inv] + invs).reverse() =~= invs.reverse() + seq![inv]);
        lemma_steps_append(s2, invs.reverse(), seq![inv]);
        let s3 = step(s1, inv)->Ok_0.0;
        assert(seq![inv].drop_first() =~= Seq::<ObjectOpView>::empty());
        assert(seq![inv][0] == inv);
        assert(steps(s3, seq![inv].drop_first()) is Ok && steps(s3, seq![inv].drop_first())->Ok_0.0 == s3);
        assert(steps(s1, seq![inv]) is Ok && steps(s1, seq![inv])->Ok_0.0 == s3);
    }
}

/// Undoing a batch of field edits restores the scene: when such a batch
/// applies, applying the inverse batch it returns (the inverses in reverse
/// order) succeeds and gives back the scene exactly as it was.
pub proof fn lemma_field_batch_undo(s: ObjectSceneView, ops: Seq<ObjectOpView>)
    requires
        forall|k: int| 0 <= k < ops.len() ==> is_field_edit(#[trigger] ops[k]),
        step(s, ObjectOpView::Batch { ops }) is Ok,
    ensures
        ({
            let (s1, inv) = step(s, ObjectOpView::Batch { ops })->Ok_0;
            step(s1, inv) is Ok && step(s1, inv)->Ok_0.0 == s
        }),
{
    lemma_field_steps_undo(s, ops);
}

/// The objects of `s` have distinct ids, and every anchor of every object is
/// bound to an object of `s`.
pub open spec fn well_linked(s: ObjectSceneView) -> bool {
    &&& forall|j: int, k: int| 0 <= j < k < s.objects.len() ==> s.objects[j].id != s.objects[k].id
    &&& forall|j: int, k: int|
        0 <= j < s.objects.len() && 0 <= k < s.objects[j].anchors.len() ==> has_object(
            s,
            #[trigger] s.objects[j].anchors[k].target,
        )
}

proof fn lemma_keep_complete<A>(s: Seq<A>, p: spec_fn(A) -> bool, i: int)
    requires
        0 <= i < s.len(),
        p(s[i]),
    ensures
        keep(s, p).contains(s[i]),
    decreases s.len(),
{
    if i == s.len() - 1 {
        assert(keep(s, p) == keep(s.drop_last(), p).push(s.last()));
        assert(keep(s, p)[keep(s, p).len() - 1] == s[i]);
    } else {
        assert(s.drop_last()[i] == s[i]);
        lemma_keep_complete(s.drop_last(), p, i);
        let k0 = keep(s.drop_last(), p);
        let w = choose|w: int| 0 <= w < k0.len() && k0[w] == s[i];
        if p(s.last()) {
            assert(keep(s, p) == k0.push(s.last()));
            assert(keep(s, p)[w] == s[i]);
        } else {
            assert(keep(s, p) == k0);
        }
    }
}

/// The peers whose anchors the delete of the last object pruned, in order.
pub open spec fn pruned_peers(s: ObjectSceneView) -> Seq<ObjectView> {
    keep(s.objects.drop_last(), |p: ObjectView| targets(p.anchors, s.objects.last().id))
}

/// `objects` is the scene with the last object's peers each either as they
/// were or pruned of their anchors onto it.
pub open spec fn partly_pruned(s: ObjectSceneView, objects: Seq<ObjectView>) -> bool {
    let n = s.objects.len();
    let id = s.objects.last().id;
    &&& objects.len() == n
    &&& objects[n - 1] == s.objects[n - 1]
    &&& forall|j: int|
        0 <= j < n - 1 ==> (#[trigger] objects[j] == s.objects[j] || objects[j] == prune(s.objects[j], id))
}

proof fn lemma_first_index(s: ObjectSceneView, objects: Seq<ObjectView>, j: int)
    requires
        well_linked(s),
        objects.len() == s.objects.len(),
        forall|k: int| 0 <= k < objects.len() ==> #[trigger] objects[k].id == s.objects[k].id,
        0 <= j < objects.len(),
    ensures
        object_index(objects, s.objects[j].id, j),
        (choose|c: int| object_index(objects, s.objects[j].id, c)) == j,
{
    let id = s.objects[j].id;
    assert forall|k: int| 0 <= k < j implies objects[k].id != id by {
        assert(objects[k].id == s.objects[k].id);
    }
    assert(object_index(objects, id, j));
    let c = choose|c: int| object_index(objects, id, c);
    assert(object_index(objects, id, c));
    if c < j {
        assert(objects[c].id != id);
    } else if c > j {
        assert(objects[j].id == id);
    }
}

proof fn lemma_restores(s: ObjectSceneView, u: ObjectSceneView, m: int)
    requires
        s.objects.len() > 0,
        well_linked(s),
        0 <= m <= pruned_peers(s).len(),
        u == (ObjectSceneView { objects: u.objects, ..s }),
        partly_pruned(s, u.objects),
        forall|mm: int, j: int|
            0 <= mm < m && 0 <= j < s.objects.len() - 1 && s.objects[j].id == #[trigger] pruned_peers(s)[mm].id
                ==> #[trigger] u.objects[j] == s.objects[j],
    ensures
        steps(u, pruned_peers(s).map_values(|p: ObjectView| restore_op(p)).skip(m)) is Ok,
        steps(u, pruned_peers(s).map_values(|p: ObjectView| restore_op(p)).skip(m))->Ok_0.0 == s,
    decreases pruned_peers(s).len() - m,
{
    let n = s.objects.len() as int;
    let id = s.objects.last().id;
    let rest = s.objects.drop_last();
    let pred = |p: ObjectView| targets(p.anchors, id);
    let kept = pruned_peers(s);
    let restores = kept.map_values(|p: ObjectView| restore_op(p));
    assert forall|k: int| 0 <= k < n implies #[trigger] u.objects[k].id == s.objects[k].id by {
        if k < n - 1 {
            assert(u.objects[k] == s.objects[k] || u.objects[k] == prune(s.objects[k], id));
        }
    }
    if m == kept.len() {
        assert(restores.skip(m) =~= Seq::<ObjectOpView>::empty());
        assert forall|j: int| 0 <= j < n implies #[trigger] u.objects[j] == s.objects[j] by {
            if j < n - 1 {
                assert(rest[j] == s.objects[j]);
                if targets(s.objects[j].anchors, id) {
                    lemma_keep_complete(rest, pred, j);
                    let mm = choose|mm: int| 0 <= mm < kept.len() && kept[mm] == rest[j];
                    assert(s.objects[j].id == kept[mm].id);
                } else {
                    assert(prune(s.objects[j], id) == s.objects[j]);
                }
            }
        }
        assert(u.objects =~= s.objects);
    } else {
        let peer = kept[m];
        crate::graph::lemma_keep_members(rest, pred);
        let j0 = choose|j0: int| 0 <= j0 < rest.len() && rest[j0] == peer;
        assert(s.objects[j0] == peer);
        let op = restore_op(peer);
        assert(restores.skip(m)[0] == op);
        assert(restores.skip(m).drop_first() =~= restores.skip(m + 1));
        // every anchor of the peer is bound to an object of `u`
        assert forall|k: int| 0 <= k < peer.anchors.len() implies has_object(u, #[trigger] peer.anchors[k].target) by {
            assert(has_object(s, s.objects[j0].anchors[k].target));
            let jj = choose|jj: int| 0 <= jj < s.objects.len() && s.objects[jj].id == peer.anchors[k].target;
            assert(u.objects[jj].id == s.objects[jj].id);
        }
        lemma_no_missing(u, peer.anchors);
        lemma_first_index(s, u.objects, j0);
        assert(index_of(u, peer.id) == Some(j0));
        let o2 = ObjectView { anchors: peer.anchors, ..u.objects[j0] };
        assert(u.objects[j0] == s.objects[j0] || u.objects[j0] == prune(s.objects[j0], id));
        assert(o2 == s.objects[j0]);
        let u2 = with_object(u, j0, o2);
        assert(step(u, op) == Ok::<(ObjectSceneView, ObjectOpView), ApplyErrorView>((u2, restore_op(u.objects[j0]))));
        assert(partly_pruned(s, u2.objects)) by {
            assert forall|j: int| 0 <= j < n - 1 implies (#[trigger] u2.objects[j] == s.objects[j] || u2.objects[j]
                == prune(s.objects[j], id)) by {
                if j != j0 {
                    assert(u2.objects[j] == u.objects[j]);
                }
            }
        }
        assert forall|mm: int, j: int|
            0 <= mm < m + 1 && 0 <= j < n - 1 && s.objects[j].id == #[trigger] kept[mm].id implies #[trigger] u2.objects[j]
                == s.objects[j] by {
            if j == j0 {
            } else {
                assert(u2.objects[j] == u.objects[j]);
                if mm == m {
                    assert(s.objects[j].id == s.objects[j0].id);
                    if j < j0 {
                        assert(s.objects[j].id != s.objects[j0].id);
                    } else {
                        assert(s.objects[j0].id != s.objects[j].id);
                    }
                }
            }
        }
        lemma_restores(s, u2, m + 1);
    }
}

/// Undoing the delete of the scene's last object restores the scene, in a
/// scene whose ids are distinct and whose anchors are all bound to objects of
/// it, when the object already held its subpaths: the inverse re-inserts the
/// object and puts back the anchors the delete pruned from other objects.
/// (The re-insert appends, so for an object that is not the last the
/// objects come back in another order.)
pub proof fn lemma_delete_last_undo(s: ObjectSceneView)
    requires
        s.objects.len() > 0,
        well_linked(s),
        s.objects.last().geometry.subpaths.len() > 0,
    ensures
        step(s, ObjectOpView::Delete { id: s.objects.last().id }) is Ok,
        ({
            let (s1, inv) = step(s, ObjectOpView::Delete { id: s.objects.last().id })->Ok_0;
            step(s1, inv) is Ok && step(s1, inv)->Ok_0.0 == s
        }),
{
    let n = s.objects.len() as int;
    let i = n - 1;
    let o = s.objects[i];
    let id = o.id;
    let rest = s.objects.remove(i);
    assert(rest =~= s.objects.drop_last());
    assert forall|k: int| 0 <= k < n implies #[trigger] s.objects[k].id == s.objects[k].id by {}
    lemma_first_index(s, s.objects, i);
    assert(index_of(s, id) == Some(i));
    let (s1, inv) = delete_at(s, i);
    let pred = |p: ObjectView| targets(p.anchors, id);
    let kept = keep(rest, pred);
    assert(kept == pruned_peers(s));
    let restores = kept.map_values(|p: ObjectView| restore_op(p));
    let insert = ObjectOpView::InsertObject { object: o };
    // the deleted id is gone
    assert forall|j: int| 0 <= j < s1.objects.len() implies s1.objects[j].id != id by {
        assert(s1.objects[j] == prune(rest[j], id));
        assert(rest[j] == s.objects[j]);
    }
    assert(!has_object(s1, id));
    assert(ensured(o.geometry) == o.geometry);
    assert(ObjectView { geometry: ensured(o.geometry), ..o } == o);
    let s2 = ObjectSceneView { objects: s1.objects.push(o), ..s };
    assert(step(s1, insert) == Ok::<(ObjectSceneView, ObjectOpView), ApplyErrorView>((s2, ObjectOpView::Delete { id })));
    assert(partly_pruned(s, s2.objects)) by {
        assert forall|j: int| 0 <= j < n - 1 implies (#[trigger] s2.objects[j] == s.objects[j] || s2.objects[j]
            == prune(s.objects[j], id)) by {
            assert(s2.objects[j] == prune(rest[j], id));
            assert(rest[j] == s.objects[j]);
        }
    }
    lemma_restores(s, s2, 0);
    assert(restores.skip(0) =~= restores);
    if restores.len() == 0 {
        assert(inv == insert);
        assert(steps(s2, restores) == Ok::<(ObjectSceneView, Seq<ObjectOpView>), ApplyErrorView>((s2, seq![])));
    } else {
        let ops = seq![insert] + restores;
        assert(inv == ObjectOpView::Batch { ops });
        assert(ops[0] == insert);
        assert(ops.drop_first() =~= restores);
    }
}

/// A scene in which every undo can be relied on: distinct ids, every anchor
/// bound to an object of the scene, every geometry holding its subpaths, and
/// no parent link that a reparent would refuse as a cycle.
pub open spec fn undoable(s: ObjectSceneView) -> bool {
    &&& well_linked(s)
    &&& forall|j: int| 0 <= j < s.objects.len() ==> (#[trigger] s.objects[j]).geometry.subpaths.len() > 0
    &&& forall|j: int|
        0 <= j < s.objects.len() && (#[trigger] s.objects[j]).parent is Some ==> !would_cycle(
            s.objects,
            s.objects[j].id,
            s.objects[j].parent->0,
        )
}

/// Walking toward `id` never reads `id`'s own record, so two object lists that
/// differ only there walk alike.
proof fn lemma_walk_same(a: Seq<ObjectView>, b: Seq<ObjectView>, id: Seq<char>, cur: Seq<char>, g: nat)
    requires
        a.len() == b.len(),
        forall|j: int| 0 <= j < a.len() ==> (#[trigger] a[j]).id == b[j].id,
        forall|j: int| 0 <= j < a.len() && (#[trigger] a[j]).id != id ==> a[j] == b[j],
    ensures
        walk_reaches(a, id, cur, g) == walk_reaches(b, id, cur, g),
    decreases a.len() + 2 - g,
{
    if cur == id || g + 1 > a.len() + 1 {
    } else {
        assert forall|i: int| object_index(a, cur, i) <==> object_index(b, cur, i) by {
            if 0 <= i < a.len() {
                assert(a[i].id == b[i].id);
                assert forall|j: int| 0 <= j < i implies a[j].id == b[j].id by {}
            }
        }
        if exists|i: int| object_index(a, cur, i) {
            let ia = choose|i: int| object_index(a, cur, i);
            let ib = choose|i: int| object_index(b, cur, i);
            assert(object_index(b, cur, ia));
            if ia < ib {
                assert(b[ia].id == cur);
            } else if ib < ia {
                assert(b[ib].id == cur);
            }
            assert(a[ia] == b[ia]);
            match a[ia].parent {
                Some(p) => {
                    lemma_walk_same(a, b, id, p, g + 1);
                },
                None => {},
            }
        } else {
            assert(!exists|i: int| object_index(b, cur, i));
        }
    }
}

/// A scene with the object at `i` moved to the end.
pub open spec fn moved_to_end(s: ObjectSceneView, i: int) -> ObjectSceneView {
    ObjectSceneView { objects: s.objects.remove(i).push(s.objects[i]), ..s }
}

proof fn lemma_moved_to_end(s: ObjectSceneView, i: int)
    requires
        0 <= i < s.objects.len(),
        undoable(s),
    ensures
        well_linked(moved_to_end(s, i)),
        moved_to_end(s, i).objects.last().geometry.subpaths.len() > 0,
        moved_to_end(s, i).objects.last() == s.objects[i],
        moved_to_end(s, i).objects.drop_last() == s.objects.remove(i),
{
    let n = s.objects.len() as int;
    let t = moved_to_end(s, i);
    let src = |j: int| if j < i { j } else if j < n - 1 { j + 1 } else { i };
    assert forall|j: int| 0 <= j < n implies #[trigger] t.objects[j] == s.objects[src(j)] by {
        if j < n - 1 {
            assert(t.objects[j] == s.objects.remove(i)[j]);
        }
    }
    assert(t.objects.drop_last() =~= s.objects.remove(i));
    assert forall|j: int, k: int| 0 <= j < k < t.objects.len() implies t.objects[j].id != t.objects[k].id by {
        assert(t.objects[j] == s.objects[src(j)]);
        assert(t.objects[k] == s.objects[src(k)]);
        if src(j) < src(k) {
        } else {
            assert(src(k) < src(j));
        }
    }
    assert forall|x: Seq<char>| has_object(s, x) implies has_object(t, x) by {
        let w = choose|w: int| 0 <= w < s.objects.len() && s.objects[w].id == x;
        let v = if w < i { w } else if w == i { n - 1 } else { w - 1 };
        assert(t.objects[v] == s.objects[src(v)]);
    }
    assert forall|j: int, k: int|
        0 <= j < t.objects.len() && 0 <= k < t.objects[j].anchors.len() implies has_object(
            t,
            #[trigger] t.objects[j].anchors[k].target,
        ) by {
        assert(t.objects[j] == s.objects[src(j)]);
        assert(has_object(s, s.objects[src(j)].anchors[k].target));
    }
    assert(t.objects[n - 1] == s.objects[i]);
}

/// Undoing any single op restores the scene, in a scene where undo can be
/// relied on: applying the inverse that a successful op returns succeeds, and
/// gives back the scene exactly, except that undoing a delete re-appends the
/// deleted object, so the objects come back with it moved to the end. (A
/// batch undoes exactly too when it deletes nothing and every scene along it
/// is such a scene: [`lemma_batch_undo`].)
#[verifier::spinoff_prover]
#[verifier::rlimit(40)]
pub proof fn lemma_undo(s: ObjectSceneView, op: ObjectOpView)
    requires
        undoable(s),
        !(op is Batch),
        step(s, op) is Ok,
    ensures
        ({
            let (s1, inv) = step(s, op)->Ok_0;
            &&& step(s1, inv) is Ok
            &&& match op {
                ObjectOpView::Delete { id } => step(s1, inv)->Ok_0.0 == moved_to_end(s, index_of(s, id)->0),
                _ => step(s1, inv)->Ok_0.0 == s,
            }
        }),
{
    if is_field_edit(op) {
        lemma_field_edit_undo(s, op);
    } else {
        match op {
            ObjectOpView::InsertObject { object } => {
                assert forall|j: int| 0 <= j < s.objects.len() implies !targets(#[trigger] s.objects[j].anchors, object.id) by {
                    if targets(s.objects[j].anchors, object.id) {
                        let k = choose|k: int| 0 <= k < s.objects[j].anchors.len() && s.objects[j].anchors[k].target == object.id;
                        assert(has_object(s, s.objects[j].anchors[k].target));
                    }
                }
                lemma_insert_undo(s, object);
            },
            ObjectOpView::Delete { id } => {
                let i = index_of(s, id)->0;
                let c = choose|c: int| object_index(s.objects, id, c);
                assert(object_index(s.objects, id, c));
                let t = moved_to_end(s, i);
                lemma_moved_to_end(s, i);
                let n = s.objects.len() as int;
                assert(t.objects.remove(n - 1) =~= t.objects.drop_last());
                assert forall|k: int| 0 <= k < n implies #[trigger] t.objects[k].id == t.objects[k].id by {}
                lemma_first_index(t, t.objects, n - 1);
                assert(index_of(t, id) == Some(n - 1));
                assert(delete_at(t, n - 1) == delete_at(s, i));
                lemma_delete_last_undo(t);
            },
            ObjectOpView::SetAnchor { id, anchors } => {
                let i = index_of(s, id)->0;
                let c = choose|c: int| object_index(s.objects, id, c);
                assert(object_index(s.objects, id, c));
                assert forall|k: int| 0 <= k < s.objects[i].anchors.len() implies has_object(
                    s,
                    #[trigger] s.objects[i].anchors[k].target,
                ) by {}
                lemma_set_anchor_undo(s, id, anchors);
            },
            ObjectOpView::EditGeometry { id, geometry } => {
                let c = choose|c: int| object_index(s.objects, id, c);
                assert(object_index(s.objects, id, c));
                assert(s.objects[c].geometry.subpaths.len() > 0);
                lemma_edit_geometry_undo(s, id, geometry);
            },
            ObjectOpView::Reparent { id, parent, order } => {
                let i = index_of(s, id)->0;
                let c = choose|c: int| object_index(s.objects, id, c);
                assert(object_index(s.objects, id, c));
                let o = s.objects[i];
                let o2 = ObjectView { parent, order, ..o };
                let s1 = with_object(s, i, o2);
                lemma_reparent_undo(s, id, parent, order);
                if o.parent is Some {
                    let p = o.parent->0;
                    assert forall|j: int| 0 <= j < s.objects.len() && (#[trigger] s.objects[j]).id != id implies s.objects[j]
                        == s1.objects[j] by {}
                    assert forall|j: int| 0 <= j < s.objects.len() implies (#[trigger] s.objects[j]).id == s1.objects[j].id by {}
                    lemma_walk_same(s.objects, s1.objects, id, p, 0);
                    assert(!would_cycle(s.objects, o.id, p));
                    lemma_index_after_update(s, id, i, o2);
                }
            },
            _ => {},
        }
    }
}

/// Every scene along the run of `ops` from `s`, up to the first refusal, is
/// one in which undo can be relied on.
pub open spec fn undoable_along(s: ObjectSceneView, ops: Seq<ObjectOpView>) -> bool
    decreases ops.len(),
{
    &&& undoable(s)
    &&& ops.len() > 0 ==> match step(s, ops[0]) {
        Ok((s1, _)) => undoable_along(s1, ops.drop_first()),
        Err(_) => true,
    }
}

proof fn lemma_steps_undo(s: ObjectSceneView, ops: Seq<ObjectOpView>)
    requires
        forall|k: int| 0 <= k < ops.len() ==> !((#[trigger] ops[k]) is Batch) && !(ops[k] is Delete),
        undoable_along(s, ops),
        steps(s, ops) is Ok,
    ensures
        steps(steps(s, ops)->Ok_0.0, steps(s, ops)->Ok_0.1.reverse()) is Ok,
        steps(steps(s, ops)->Ok_0.0, steps(s, ops)->Ok_0.1.reverse())->Ok_0.0 == s,
    decreases ops.len(),
{
    if ops.len() == 0 {
        assert(Seq::<ObjectOpView>::empty().reverse() =~= Seq::<ObjectOpView>::empty());
    } else {
        let (s1, inv) = step(s, ops[0])->Ok_0;
        let rest = ops.drop_first();
        assert forall|k: int| 0 <= k < rest.len() implies !((#[trigger] rest[k]) is Batch) && !(rest[k] is Delete) by {
            assert(rest[k] == ops[k + 1]);
        }
        lemma_steps_undo(s1, rest);
        lemma_undo(s, ops[0]);
        let (s2, invs) = steps(s1, rest)->Ok_0;
        assert(steps(s, ops)->Ok_0.1 == seq![inv] + invs);
        assert((seq![inv] + invs).reverse() =~= invs.reverse() + seq![inv]);
        lemma_steps_append(s2, invs.reverse(), seq![inv]);
        let s3 = step(s1, inv)->Ok_0.0;
        assert(seq![inv][0] == inv);
        assert(steps(s3, seq![inv].drop_first()) is Ok && steps(s3, seq![inv].drop_first())->Ok_0.0 == s3);
        assert(steps(s1, seq![inv]) is Ok && steps(s1, seq![inv])->Ok_0.0 == s3);
    }
}

/// Undoing a batch restores the scene exactly when the batch deletes nothing
/// and every scene along it is one in which undo can be relied on: applying
/// the inverse batch it returns (the inverses in reverse order) succeeds and
/// gives back the scene as it was.
pub proof fn lemma_batch_undo(s: ObjectSceneView, ops: Seq<ObjectOpView>)
    requires
        forall|k: int| 0 <= k < ops.len() ==> !((#[trigger] ops[k]) is Batch) && !(ops[k] is Delete),
        undoable_along(s, ops),
        step(s, ObjectOpView::Batch { ops }) is Ok,
    ensures
        ({
            let (s1, inv) = step(s, ObjectOpView::Batch { ops })->Ok_0;
            step(s1, inv) is Ok && step(s1, inv)->Ok_0.0 == s
        }),
{
    lemma_steps_undo(s, ops);
}


/// The scene a successful edit of the first object with id `id` leaves:
/// that object replaced by `o`, every other object and field as it was,
/// the version one up.
pub open spec fn edited_to(s: ObjectSceneView, r: ObjectSceneView, id: Seq<char>, o: spec_fn(ObjectView) -> ObjectView) -> bool {
    exists|i: int|
        #![trigger s.objects[i]]
        object_index(s.objects, id, i) && r == ObjectSceneView {
            scene_version: (s.scene_version + 1) as u64,
            objects: s.objects.update(i, o(s.objects[i])),
            ..s
        }
}

/// A field edit that succeeds sets exactly its field, to the value the op
/// carries, on the first object with its id, and changes nothing else:
/// `set-tags` leaves those tags, `set-transform` that transform,
/// `set-style` the fill and stroke it names (a set value, or none on a
/// clear; one it does not name stays), `set-text`, `set-anchor`,
/// `set-layout`, `set-clip`, `set-comments` and `reorder` their field,
/// `add-comment` the comment appended, `reparent` the parent and order,
/// and `edit-geometry` the new path text and fill rule. An insert appends
/// the object (its path text and fill rule as given).
pub proof fn lemma_edits_set_their_field(s: ObjectSceneView, op: ObjectOpView)
    requires
        applied(s, op) is Ok,
    ensures
        ({
            let r = applied(s, op)->Ok_0.0;
            match op {
                ObjectOpView::SetTags { id, tags } => edited_to(s, r, id, |o: ObjectView| ObjectView { tags, ..o }),
                ObjectOpView::SetTransform { id, transform } => edited_to(
                    s,
                    r,
                    id,
                    |o: ObjectView| ObjectView { transform, ..o },
                ),
                ObjectOpView::SetStyle { id, fill, stroke } => edited_to(
                    s,
                    r,
                    id,
                    |o: ObjectView|
                        ObjectView {
                            fill: match fill {
                                Some(FieldEditView::SetTo { value }) => Some(value),
                                Some(FieldEditView::Clear) => None,
                                None => o.fill,
                            },
                            stroke: match stroke {
                                Some(FieldEditView::SetTo { value }) => Some(value),
                                Some(FieldEditView::Clear) => None,
                                None => o.stroke,
                            },
                            ..o
                        },
                ),
                ObjectOpView::SetText { id, text } => edited_to(s, r, id, |o: ObjectView| ObjectView { text, ..o }),
                ObjectOpView::SetAnchor { id, anchors } => edited_to(
                    s,
                    r,
                    id,
                    |o: ObjectView| ObjectView { anchors, ..o },
                ),
                ObjectOpView::SetLayout { id, layout } => edited_to(
                    s,
                    r,
                    id,
                    |o: ObjectView| ObjectView { layout, ..o },
                ),
                ObjectOpView::SetClip { id, clip } => edited_to(s, r, id, |o: ObjectView| ObjectView { clip, ..o }),
                ObjectOpView::AddComment { id, comment } => edited_to(
                    s,
                    r,
                    id,
                    |o: ObjectView| ObjectView { comments: o.comments.push(comment), ..o },
                ),
                ObjectOpView::SetComments { id, comments } => edited_to(
                    s,
                    r,
                    id,
                    |o: ObjectView| ObjectView { comments, ..o },
                ),
                ObjectOpView::Reorder { id, order } => edited_to(
                    s,
                    r,
                    id,
                    |o: ObjectView| ObjectView { order, ..o },
                ),
                ObjectOpView::Reparent { id, parent, order } => edited_to(
                    s,
                    r,
                    id,
                    |o: ObjectView| ObjectView { parent, order, ..o },
                ),
                ObjectOpView::EditGeometry { id, geometry } => exists|i: int|
                    #![trigger s.objects[i]]
                    object_index(s.objects, id, i) && r.objects.len() == s.objects.len() && r.objects[i].geometry.path_string
                        == geometry.path_string && r.objects[i].geometry.fill_rule == geometry.fill_rule && r.objects[i]
                        == ObjectView { geometry: r.objects[i].geometry, ..s.objects[i] } && (forall|j: int|
                        0 <= j < s.objects.len() && j != i ==> r.objects[j] == s.objects[j]) && r.scene_version
                        == (s.scene_version + 1) as u64 && r.tags == s.tags && r.selection == s.selection,
                ObjectOpView::InsertObject { object } => r.objects.len() == s.objects.len() + 1 && r.objects.subrange(
                    0,
                    s.objects.len() as int,
                ) == s.objects && r.objects.last() == ObjectView { geometry: r.objects.last().geometry, ..object }
                    && r.objects.last().geometry.path_string == object.geometry.path_string
                    && r.objects.last().geometry.fill_rule == object.geometry.fill_rule,
                _ => true,
            }
        }),
{
    match op {
        ObjectOpView::EditGeometry { id, geometry } => {
            let i = index_of(s, id)->0;
            assert(object_index(s.objects, id, i));
            let g = ensured(geometry);
            assert(g.path_string == geometry.path_string && g.fill_rule == geometry.fill_rule);
            let r = applied(s, op)->Ok_0.0;
            assert(r.objects == s.objects.update(i, ObjectView { geometry: g, ..s.objects[i] }));
            assert(r.objects.len() == s.objects.len());
            assert(r.objects[i].geometry.path_string == geometry.path_string);
            assert(r.objects[i] == ObjectView { geometry: r.objects[i].geometry, ..s.objects[i] });
            assert(forall|j: int| 0 <= j < s.objects.len() && j != i ==> r.objects[j] == s.objects[j]);
            assert(r.scene_version == (s.scene_version + 1) as u64);
            assert(r.tags == s.tags && r.selection == s.selection);
        },
        ObjectOpView::InsertObject { object } => {
            let r = applied(s, op)->Ok_0.0;
            assert(r.objects.subrange(0, s.objects.len() as int) =~= s.objects);
        },
        _ => {
            match index_of(s, op_subject(op)) {
                Some(i) => {
                    assert(object_index(s.objects, op_subject(op), i));
                },
                None => {},
            }
        },
    }
}

/// The object an op names, for those that name one.
pub open spec fn op_subject(op: ObjectOpView) -> Seq<char> {
    match op {
        ObjectOpView::Delete { id } => id,
        ObjectOpView::EditGeometry { id, .. } => id,
        ObjectOpView::SetTransform { id, .. } => id,
        ObjectOpView::SetStyle { id, .. } => id,
        ObjectOpView::SetText { id, .. } => id,
        ObjectOpView::SetAnchor { id, .. } => id,
        ObjectOpView::SetLayout { id, .. } => id,
        ObjectOpView::SetClip { id, .. } => id,
        ObjectOpView::AddComment { id, .. } => id,
        ObjectOpView::SetComments { id, .. } => id,
        ObjectOpView::SetTags { id, .. } => id,
        ObjectOpView::Reorder { id, .. } => id,
        ObjectOpView::Reparent { id, .. } => id,
        ObjectOpView::Split { id } => id,
        _ => seq![],
    }
}


/// `o` is `src` with exactly its anchors onto `id` dropped.
pub open spec fn pruned_from(src: ObjectView, o: ObjectView, id: Seq<char>) -> bool {
    &&& o == (ObjectView { anchors: o.anchors, ..src })
    &&& forall|a: AnchorView| o.anchors.contains(a) <==> src.anchors.contains(a) && a.target != id
}

/// Pruning a peer drops exactly its anchors onto `id`.
proof fn lemma_prune_anchors(src: ObjectView, id: Seq<char>)
    ensures
        pruned_from(src, prune(src, id), id),
{
    let pr = |a: AnchorView| a.target != id;
    let o = prune(src, id);
    if targets(src.anchors, id) {
        crate::graph::lemma_keep_members(src.anchors, pr);
        assert forall|a: AnchorView| o.anchors.contains(a) <==> src.anchors.contains(a) && a.target != id by {
            if src.anchors.contains(a) && a.target != id {
                crate::graph::lemma_keep_keeps(src.anchors, pr, a);
            }
            if o.anchors.contains(a) {
                let w = choose|w: int| 0 <= w < o.anchors.len() && o.anchors[w] == a;
                assert(pr(keep(src.anchors, pr)[w]));
            }
        }
    } else {
        assert forall|a: AnchorView| o.anchors.contains(a) <==> src.anchors.contains(a) && a.target != id by {
            if src.anchors.contains(a) {
                let w = choose|w: int| 0 <= w < src.anchors.len() && src.anchors[w] == a;
                assert(!(0 <= w < src.anchors.len() && src.anchors[w].target == id));
            }
        }
    }
}

/// The object left at position `k` after removing position `i`.
pub open spec fn kept_at(objects: Seq<ObjectView>, i: int, k: int) -> ObjectView {
    if k < i {
        objects[k]
    } else {
        objects[k + 1]
    }
}

/// A delete that succeeds removes the first object with its id and keeps
/// every other object in order, each as it was but for its anchors, which
/// lose exactly those onto the deleted id.
#[verifier::spinoff_prover]
pub proof fn lemma_delete_removes(s: ObjectSceneView, id: Seq<char>)
    requires
        applied(s, ObjectOpView::Delete { id }) is Ok,
    ensures
        ({
            let r = applied(s, ObjectOpView::Delete { id })->Ok_0.0;
            exists|i: int|
                #![trigger s.objects[i]]
                object_index(s.objects, id, i) && r.objects.len() == s.objects.len() - 1 && forall|k: int|
                    0 <= k < r.objects.len() ==> pruned_from(kept_at(s.objects, i, k), #[trigger] r.objects[k], id)
        }),
{
    let i = index_of(s, id)->0;
    assert(object_index(s.objects, id, i));
    let r = applied(s, ObjectOpView::Delete { id })->Ok_0.0;
    let rest = s.objects.remove(i);
    assert(r.objects == rest.map_values(|p: ObjectView| prune(p, id)));
    assert forall|k: int| 0 <= k < r.objects.len() implies pruned_from(kept_at(s.objects, i, k), #[trigger] r.objects[k], id) by {
        assert(rest[k] == kept_at(s.objects, i, k));
        assert(r.objects[k] == prune(rest[k], id));
        lemma_prune_anchors(rest[k], id);
    }
}

} // verus!
