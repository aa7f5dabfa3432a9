//! Object operations: the edits an [`ObjectOp`] makes to an object scene.

use vstd::prelude::*;

use crate::object::model::{
    anchor_views, comment_views, opt_str, opt_view, Anchor, AnchorView, Comment, CommentView, Fill,
    FillView, Geometry, GeometryView, Layout, Object, ObjectId, ObjectView, Stroke, StrokeView, Text,
    TextView, Transform3x3,
};
use crate::text::strs;

verus! {

/// A change to an optional style field: set it to a value, or clear it.
#[derive(Clone, Debug, PartialEq)]
pub enum FieldEdit<T> {
    SetTo { value: T },
    Clear,
}

pub enum FieldEditView<V> {
    SetTo { value: V },
    Clear,
}

impl<T: View> View for FieldEdit<T> {
    type V = FieldEditView<T::V>;

    open spec fn view(&self) -> FieldEditView<T::V> {
        match self {
            FieldEdit::SetTo { value } => FieldEditView::SetTo { value: value@ },
            FieldEdit::Clear => FieldEditView::Clear,
        }
    }
}

/// The field value an edit leaves.
pub open spec fn resolved<V>(edit: FieldEditView<V>) -> Option<V> {
    match edit {
        FieldEditView::SetTo { value } => Some(value),
        FieldEditView::Clear => None,
    }
}

impl<T: View> FieldEdit<T> {
    /// The field value this edit leaves.
    pub fn resolve(self) -> (r: Option<T>)
        ensures
            opt_view(r) == resolved(self@),
    {
        match self {
            FieldEdit::SetTo { value } => Some(value),
            FieldEdit::Clear => None,
        }
    }
}

/// One edit of an object scene.
#[derive(Debug, PartialEq)]
pub enum ObjectOp {
    InsertObject { object: Object },
    Delete { id: ObjectId },
    EditGeometry { id: ObjectId, geometry: Geometry },
    SetTransform { id: ObjectId, transform: Transform3x3 },
    SetStyle { id: ObjectId, fill: Option<FieldEdit<Fill>>, stroke: Option<FieldEdit<Stroke>> },
    SetText { id: ObjectId, text: Option<Text> },
    SetAnchor { id: ObjectId, anchors: Vec<Anchor> },
    SetLayout { id: ObjectId, layout: Option<Layout> },
    SetClip { id: ObjectId, clip: Option<bool> },
    AddComment { id: ObjectId, comment: Comment },
    SetComments { id: ObjectId, comments: Vec<Comment> },
    SetTags { id: ObjectId, tags: Vec<String> },
    Reorder { id: ObjectId, order: String },
    Reparent { id: ObjectId, parent: Option<ObjectId>, order: String },
    Split { id: ObjectId },
    Merge { ids: Vec<ObjectId> },
    Batch { ops: Vec<ObjectOp> },
}

pub enum ObjectOpView {
    InsertObject { object: ObjectView },
    Delete { id: Seq<char> },
    EditGeometry { id: Seq<char>, geometry: GeometryView },
    SetTransform { id: Seq<char>, transform: Transform3x3 },
    SetStyle {
        id: Seq<char>,
        fill: Option<FieldEditView<FillView>>,
        stroke: Option<FieldEditView<StrokeView>>,
    },
    SetText { id: Seq<char>, text: Option<TextView> },
    SetAnchor { id: Seq<char>, anchors: Seq<AnchorView> },
    SetLayout { id: Seq<char>, layout: Option<Layout> },
    SetClip { id: Seq<char>, clip: Option<bool> },
    AddComment { id: Seq<char>, comment: CommentView },
    SetComments { id: Seq<char>, comments: Seq<CommentView> },
    SetTags { id: Seq<char>, tags: Seq<Seq<char>> },
    Reorder { id: Seq<char>, order: Seq<char> },
    Reparent { id: Seq<char>, parent: Option<Seq<char>>, order: Seq<char> },
    Split { id: Seq<char> },
    Merge { ids: Seq<Seq<char>> },
    Batch { ops: Seq<ObjectOpView> },
}

pub open spec fn op_view(op: ObjectOp) -> ObjectOpView
    decreases op,
{
    match op {
        ObjectOp::InsertObject { object } => ObjectOpView::InsertObject { object: object@ },
        ObjectOp::Delete { id } => ObjectOpView::Delete { id: id@ },
        ObjectOp::EditGeometry { id, geometry } => ObjectOpView::EditGeometry { id: id@, geometry: geometry@ },
        ObjectOp::SetTransform { id, transform } => ObjectOpView::SetTransform { id: id@, transform },
        ObjectOp::SetStyle { id, fill, stroke } => ObjectOpView::SetStyle {
            id: id@,
            fill: opt_view(fill),
            stroke: opt_view(stroke),
        },
        ObjectOp::SetText { id, text } => ObjectOpView::SetText { id: id@, text: opt_view(text) },
        ObjectOp::SetAnchor { id, anchors } => ObjectOpView::SetAnchor { id: id@, anchors: anchor_views(anchors@) },
        ObjectOp::SetLayout { id, layout } => ObjectOpView::SetLayout { id: id@, layout },
        ObjectOp::SetClip { id, clip } => ObjectOpView::SetClip { id: id@, clip },
        ObjectOp::AddComment { id, comment } => ObjectOpView::AddComment { id: id@, comment: comment@ },
        ObjectOp::SetComments { id, comments } => ObjectOpView::SetComments {
            id: id@,
            comments: comment_views(comments@),
        },
        ObjectOp::SetTags { id, tags } => ObjectOpView::SetTags { id: id@, tags: strs(tags@) },
        ObjectOp::Reorder { id, order } => ObjectOpView::Reorder { id: id@, order: order@ },
        ObjectOp::Reparent { id, parent, order } => ObjectOpView::Reparent {
            id: id@,
            parent: opt_str(parent),
            order: order@,
        },
        ObjectOp::Split { id } => ObjectOpView::Split { id: id@ },
        ObjectOp::Merge { ids } => ObjectOpView::Merge { ids: strs(ids@) },
        ObjectOp::Batch { ops } => ObjectOpView::Batch { ops: op_views(ops@) },
    }
}

pub open spec fn op_views(ops: Seq<ObjectOp>) -> Seq<ObjectOpView>
    decreases ops,
{
    if ops.len() == 0 {
        seq![]
    } else {
        op_views(ops.drop_last()).push(op_view(ops.last()))
    }
}

impl View for ObjectOp {
    type V = ObjectOpView;

    open spec fn view(&self) -> ObjectOpView {
        op_view(*self)
    }
}

impl ObjectOp {
    /// The kebab-case kind name of the op.
    pub fn kind(&self) -> (r: &'static str)
        ensures
            r@ == op_kind(self@),
    {
        match self {
            ObjectOp::InsertObject { .. } => "insert-object",
            ObjectOp::Delete { .. } => "delete",
            ObjectOp::EditGeometry { .. } => "edit-geometry",
            ObjectOp::SetTransform { .. } => "set-transform",
            ObjectOp::SetStyle { .. } => "set-style",
            ObjectOp::SetText { .. } => "set-text",
            ObjectOp::SetAnchor { .. } => "set-anchor",
            ObjectOp::SetLayout { .. } => "set-layout",
            ObjectOp::SetClip { .. } => "set-clip",
            ObjectOp::AddComment { .. } => "add-comment",
            ObjectOp::SetComments { .. } => "set-comments",
            ObjectOp::SetTags { .. } => "set-tags",
            ObjectOp::Reorder { .. } => "reorder",
            ObjectOp::Reparent { .. } => "reparent",
            ObjectOp::Split { .. } => "split",
            ObjectOp::Merge { .. } => "merge",
            ObjectOp::Batch { .. } => "batch",
        }
    }
}

pub open spec fn op_kind(op: ObjectOpView) -> Seq<char> {
    match op {
        ObjectOpView::InsertObject { .. } => "insert-object"@,
        ObjectOpView::Delete { .. } => "delete"@,
        ObjectOpView::EditGeometry { .. } => "edit-geometry"@,
        ObjectOpView::SetTransform { .. } => "set-transform"@,
        ObjectOpView::SetStyle { .. } => "set-style"@,
        ObjectOpView::SetText { .. } => "set-text"@,
        ObjectOpView::SetAnchor { .. } => "set-anchor"@,
        ObjectOpView::SetLayout { .. } => "set-layout"@,
        ObjectOpView::SetClip { .. } => "set-clip"@,
        ObjectOpView::AddComment { .. } => "add-comment"@,
        ObjectOpView::SetComments { .. } => "set-comments"@,
        ObjectOpView::SetTags { .. } => "set-tags"@,
        ObjectOpView::Reorder { .. } => "reorder"@,
        ObjectOpView::Reparent { .. } => "reparent"@,
        ObjectOpView::Split { .. } => "split"@,
        ObjectOpView::Merge { .. } => "merge"@,
        ObjectOpView::Batch { .. } => "batch"@,
    }
}

} // verus!
