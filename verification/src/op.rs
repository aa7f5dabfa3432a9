//! The scene-level edit vocabulary: the render patches a client or tool
//! authors against the placed scene, and the extended operations (comments,
//! exports, proposals) that travel in the same envelope.

use vstd::prelude::*;

use crate::model::{opt_str, Bounds, ExportType, Point, SceneSelection, SelectionView, Tag, TagView, WorldPoint, WorldRect};
use crate::text::{copy_strings, strs};
use crate::model::copy_opt_str;

verus! {

/// Which text field of a card an edit replaces.
#[derive(Clone, Copy, Debug, PartialEq, Eq, Structural)]
pub enum EditField {
    Title,
    Summary,
    Detail,
}

/// The axis cards are aligned or distributed along.
#[derive(Clone, Copy, Debug, PartialEq, Eq, Structural)]
pub enum Axis {
    X,
    Y,
}

/// Which edge of the selection cards are aligned to.
#[derive(Clone, Copy, Debug, PartialEq, Eq, Structural)]
pub enum AlignMode {
    Start,
    Center,
    End,
}

/// The kind of entity a tag assignment targets.
#[derive(Clone, Copy, Debug, PartialEq, Eq, Structural)]
pub enum TargetKind {
    Frame,
    Card,
    Edge,
}

/// A card as the renderer describes it; `node_type` and `status` are wire
/// names, `z_index` the bit pattern of an `f64`.
#[derive(Clone, Debug, PartialEq)]
pub struct RenderCard {
    pub id: String,
    pub node_type: String,
    pub title: String,
    pub summary: String,
    pub detail: String,
    pub status: String,
    pub group_id: String,
    pub bounds: WorldRect,
    pub z_index: u64,
}

pub struct RenderCardView {
    pub id: Seq<char>,
    pub node_type: Seq<char>,
    pub title: Seq<char>,
    pub summary: Seq<char>,
    pub detail: Seq<char>,
    pub status: Seq<char>,
    pub group_id: Seq<char>,
    pub bounds: Bounds,
    pub z_index: u64,
}

impl View for RenderCard {
    type V = RenderCardView;

    open spec fn view(&self) -> RenderCardView {
        RenderCardView {
            id: self.id@,
            node_type: self.node_type@,
            title: self.title@,
            summary: self.summary@,
            detail: self.detail@,
            status: self.status@,
            group_id: self.group_id@,
            bounds: self.bounds,
            z_index: self.z_index,
        }
    }
}

/// A group (frame) as the renderer describes it.
#[derive(Clone, Debug, PartialEq)]
pub struct RenderGroup {
    pub id: String,
    pub title: String,
    pub summary: String,
    pub bounds: WorldRect,
    pub tag_ids: Vec<String>,
    pub z_index: u64,
}

pub struct RenderGroupView {
    pub id: Seq<char>,
    pub title: Seq<char>,
    pub summary: Seq<char>,
    pub bounds: Bounds,
    pub tag_ids: Seq<Seq<char>>,
    pub z_index: u64,
}

impl View for RenderGroup {
    type V = RenderGroupView;

    open spec fn view(&self) -> RenderGroupView {
        RenderGroupView {
            id: self.id@,
            title: self.title@,
            summary: self.summary@,
            bounds: self.bounds,
            tag_ids: strs(self.tag_ids@),
            z_index: self.z_index,
        }
    }
}

/// One edit of the placed scene.
#[derive(Debug, PartialEq)]
pub enum RenderScenePatch {
    CreateCard { card: RenderCard },
    CreateGroup { group: RenderGroup },
    CreateEdge { group_id: String, source: String, target: String, edge_id: String, label: Option<String> },
    MoveCard { id: String, position: Point },
    SetCardZIndex { id: String, z_index: u64 },
    EditCardText { id: String, field: EditField, value: String },
    DeleteCard { id: String },
    MoveGroup { id: String, delta: Point },
    DeleteGroup { id: String },
    DeleteEdge { id: String },
    ResizeCard { id: String, bounds: WorldRect },
    ResizeGroup { id: String, bounds: WorldRect },
    Ungroup { id: String },
    SetObjectTags { target_kind: TargetKind, id: String, tag_ids: Vec<String> },
    Select { selection: SceneSelection },
    AlignCards { ids: Vec<String>, axis: Axis, mode: AlignMode },
    DistributeCards { ids: Vec<String>, axis: Axis },
    DuplicateObjects { ids: Vec<String>, delta: WorldPoint },
    Batch { ops: Vec<RenderScenePatch> },
    GroupObjects {
        ids: Vec<String>,
        frame_id: String,
        parent_group_id: Option<String>,
        title: Option<String>,
        bounds: Option<WorldRect>,
    },
    SetObjectGroup { ids: Vec<String>, frame_id: String },
    CreateTag { tag: Tag },
}

pub enum PatchView {
    CreateCard { card: RenderCardView },
    CreateGroup { group: RenderGroupView },
    CreateEdge {
        group_id: Seq<char>,
        source: Seq<char>,
        target: Seq<char>,
        edge_id: Seq<char>,
        label: Option<Seq<char>>,
    },
    MoveCard { id: Seq<char>, position: Point },
    SetCardZIndex { id: Seq<char>, z_index: u64 },
    EditCardText { id: Seq<char>, field: EditField, value: Seq<char> },
    DeleteCard { id: Seq<char> },
    MoveGroup { id: Seq<char>, delta: Point },
    DeleteGroup { id: Seq<char> },
    DeleteEdge { id: Seq<char> },
    ResizeCard { id: Seq<char>, bounds: Bounds },
    ResizeGroup { id: Seq<char>, bounds: Bounds },
    Ungroup { id: Seq<char> },
    SetObjectTags { target_kind: TargetKind, id: Seq<char>, tag_ids: Seq<Seq<char>> },
    Select { selection: SelectionView },
    AlignCards { ids: Seq<Seq<char>>, axis: Axis, mode: AlignMode },
    DistributeCards { ids: Seq<Seq<char>>, axis: Axis },
    DuplicateObjects { ids: Seq<Seq<char>>, delta: Point },
    Batch { ops: Seq<PatchView> },
    GroupObjects {
        ids: Seq<Seq<char>>,
        frame_id: Seq<char>,
        parent_group_id: Option<Seq<char>>,
        title: Option<Seq<char>>,
        bounds: Option<Bounds>,
    },
    SetObjectGroup { ids: Seq<Seq<char>>, frame_id: Seq<char> },
    CreateTag { tag: TagView },
}

pub open spec fn patch_view(p: RenderScenePatch) -> PatchView
    decreases p,
{
    match p {
        RenderScenePatch::CreateCard { card } => PatchView::CreateCard { card: card@ },
        RenderScenePatch::CreateGroup { group } => PatchView::CreateGroup { group: group@ },
        RenderScenePatch::CreateEdge { group_id, source, target, edge_id, label } => PatchView::CreateEdge {
            group_id: group_id@,
            source: source@,
            target: target@,
            edge_id: edge_id@,
            label: opt_str(label),
        },
        RenderScenePatch::MoveCard { id, position } => PatchView::MoveCard { id: id@, position },
        RenderScenePatch::SetCardZIndex { id, z_index } => PatchView::SetCardZIndex { id: id@, z_index },
        RenderScenePatch::EditCardText { id, field, value } => PatchView::EditCardText {
            id: id@,
            field,
            value: value@,
        },
        RenderScenePatch::DeleteCard { id } => PatchView::DeleteCard { id: id@ },
        RenderScenePatch::MoveGroup { id, delta } => PatchView::MoveGroup { id: id@, delta },
        RenderScenePatch::DeleteGroup { id } => PatchView::DeleteGroup { id: id@ },
        RenderScenePatch::DeleteEdge { id } => PatchView::DeleteEdge { id: id@ },
        RenderScenePatch::ResizeCard { id, bounds } => PatchView::ResizeCard { id: id@, bounds },
        RenderScenePatch::ResizeGroup { id, bounds } => PatchView::ResizeGroup { id: id@, bounds },
        RenderScenePatch::Ungroup { id } => PatchView::Ungroup { id: id@ },
        RenderScenePatch::SetObjectTags { target_kind, id, tag_ids } => PatchView::SetObjectTags {
            target_kind,
            id: id@,
            tag_ids: strs(tag_ids@),
        },
        RenderScenePatch::Select { selection } => PatchView::Select { selection: selection@ },
        RenderScenePatch::AlignCards { ids, axis, mode } => PatchView::AlignCards { ids: strs(ids@), axis, mode },
        RenderScenePatch::DistributeCards { ids, axis } => PatchView::DistributeCards { ids: strs(ids@), axis },
        RenderScenePatch::DuplicateObjects { ids, delta } => PatchView::DuplicateObjects { ids: strs(ids@), delta },
        RenderScenePatch::Batch { ops } => PatchView::Batch { ops: patch_views(ops@) },
        RenderScenePatch::GroupObjects { ids, frame_id, parent_group_id, title, bounds } => PatchView::GroupObjects {
            ids: strs(ids@),
            frame_id: frame_id@,
            parent_group_id: opt_str(parent_group_id),
            title: opt_str(title),
            bounds,
        },
        RenderScenePatch::SetObjectGroup { ids, frame_id } => PatchView::SetObjectGroup {
            ids: strs(ids@),
            frame_id: frame_id@,
        },
        RenderScenePatch::CreateTag { tag } => PatchView::CreateTag { tag: tag@ },
    }
}

pub open spec fn patch_views(ps: Seq<RenderScenePatch>) -> Seq<PatchView>
    decreases ps,
{
    if ps.len() == 0 {
        seq![]
    } else {
        patch_views(ps.drop_last()).push(patch_view(ps.last()))
    }
}

impl View for RenderScenePatch {
    type V = PatchView;

    open spec fn view(&self) -> PatchView {
        patch_view(*self)
    }
}

/// An operation beside the render patches: comments, exports and proposal
/// decisions.
#[derive(Clone, Debug, PartialEq)]
pub enum ExtendedOpPatch {
    AddComment { target: SceneSelection, body: String },
    Export { scope_ids: Vec<String>, export_type: ExportType },
    AcceptProposal { proposal_id: String },
    RejectProposal { proposal_id: String },
}

pub enum ExtendedOpView {
    AddComment { target: SelectionView, body: Seq<char> },
    Export { scope_ids: Seq<Seq<char>>, export_type: ExportType },
    AcceptProposal { proposal_id: Seq<char> },
    RejectProposal { proposal_id: Seq<char> },
}

impl View for ExtendedOpPatch {
    type V = ExtendedOpView;

    open spec fn view(&self) -> ExtendedOpView {
        match self {
            ExtendedOpPatch::AddComment { target, body } => ExtendedOpView::AddComment {
                target: target@,
                body: body@,
            },
            ExtendedOpPatch::Export { scope_ids, export_type } => ExtendedOpView::Export {
                scope_ids: strs(scope_ids@),
                export_type: *export_type,
            },
            ExtendedOpPatch::AcceptProposal { proposal_id } => ExtendedOpView::AcceptProposal {
                proposal_id: proposal_id@,
            },
            ExtendedOpPatch::RejectProposal { proposal_id } => ExtendedOpView::RejectProposal {
                proposal_id: proposal_id@,
            },
        }
    }
}

/// Either a render patch or an extended operation.
#[derive(Debug, PartialEq)]
pub enum ExtendedRenderPatch {
    Render(RenderScenePatch),
    Extended(ExtendedOpPatch),
}

pub enum ExtendedRenderView {
    Render(PatchView),
    Extended(ExtendedOpView),
}

impl View for ExtendedRenderPatch {
    type V = ExtendedRenderView;

    open spec fn view(&self) -> ExtendedRenderView {
        match self {
            ExtendedRenderPatch::Render(p) => ExtendedRenderView::Render(p@),
            ExtendedRenderPatch::Extended(e) => ExtendedRenderView::Extended(e@),
        }
    }
}

/// Each view of a list of patches is the view of the patch at that index.
pub proof fn lemma_patch_views_index(s: Seq<RenderScenePatch>)
    ensures
        patch_views(s).len() == s.len(),
        forall|i: int| 0 <= i < s.len() ==> #[trigger] patch_views(s)[i] == patch_view(s[i]),
    decreases s.len(),
{
    if s.len() > 0 {
        lemma_patch_views_index(s.drop_last());
        assert forall|i: int| 0 <= i < s.len() implies #[trigger] patch_views(s)[i] == patch_view(s[i]) by {
            if i < s.len() - 1 {
                assert(patch_views(s.drop_last())[i] == patch_view(s.drop_last()[i]));
            }
        }
    }
}

impl RenderCard {
    /// A copy with the same contents.
    pub fn copy_of(&self) -> (r: Self)
        ensures
            r@ == self@,
    {
        RenderCard {
            id: self.id.clone(),
            node_type: self.node_type.clone(),
            title: self.title.clone(),
            summary: self.summary.clone(),
            detail: self.detail.clone(),
            status: self.status.clone(),
            group_id: self.group_id.clone(),
            bounds: self.bounds,
            z_index: self.z_index,
        }
    }
}

impl RenderGroup {
    /// A copy with the same contents.
    pub fn copy_of(&self) -> (r: Self)
        ensures
            r@ == self@,
    {
        RenderGroup {
            id: self.id.clone(),
            title: self.title.clone(),
            summary: self.summary.clone(),
            bounds: self.bounds,
            tag_ids: copy_strings(&self.tag_ids),
            z_index: self.z_index,
        }
    }
}

impl RenderScenePatch {
    /// A copy with the same contents.
    pub fn copy_of(&self) -> (r: Self)
        ensures
            r@ == self@,
        decreases *self, 1int,
    {
        match self {
            RenderScenePatch::CreateCard { card } => RenderScenePatch::CreateCard { card: card.copy_of() },
            RenderScenePatch::CreateGroup { group } => RenderScenePatch::CreateGroup { group: group.copy_of() },
            RenderScenePatch::CreateEdge { group_id, source, target, edge_id, label } => RenderScenePatch::CreateEdge {
                group_id: group_id.clone(),
                source: source.clone(),
                target: target.clone(),
                edge_id: edge_id.clone(),
                label: copy_opt_str(label),
            },
            RenderScenePatch::MoveCard { id, position } => RenderScenePatch::MoveCard {
                id: id.clone(),
                position: *position,
            },
            RenderScenePatch::SetCardZIndex { id, z_index } => RenderScenePatch::SetCardZIndex {
                id: id.clone(),
                z_index: *z_index,
            },
            RenderScenePatch::EditCardText { id, field, value } => RenderScenePatch::EditCardText {
                id: id.clone(),
                field: *field,
                value: value.clone(),
            },
            RenderScenePatch::DeleteCard { id } => RenderScenePatch::DeleteCard { id: id.clone() },
            RenderScenePatch::MoveGroup { id, delta } => RenderScenePatch::MoveGroup { id: id.clone(), delta: *delta },
            RenderScenePatch::DeleteGroup { id } => RenderScenePatch::DeleteGroup { id: id.clone() },
            RenderScenePatch::DeleteEdge { id } => RenderScenePatch::DeleteEdge { id: id.clone() },
            RenderScenePatch::ResizeCard { id, bounds } => RenderScenePatch::ResizeCard {
                id: id.clone(),
                bounds: *bounds,
            },
            RenderScenePatch::ResizeGroup { id, bounds } => RenderScenePatch::ResizeGroup {
                id: id.clone(),
                bounds: *bounds,
            },
            RenderScenePatch::Ungroup { id } => RenderScenePatch::Ungroup { id: id.clone() },
            RenderScenePatch::SetObjectTags { target_kind, id, tag_ids } => RenderScenePatch::SetObjectTags {
                target_kind: *target_kind,
                id: id.clone(),
                tag_ids: copy_strings(tag_ids),
            },
            RenderScenePatch::Select { selection } => RenderScenePatch::Select { selection: selection.copy_of() },
            RenderScenePatch::AlignCards { ids, axis, mode } => RenderScenePatch::AlignCards {
                ids: copy_strings(ids),
                axis: *axis,
                mode: *mode,
            },
            RenderScenePatch::DistributeCards { ids, axis } => RenderScenePatch::DistributeCards {
                ids: copy_strings(ids),
                axis: *axis,
            },
            RenderScenePatch::DuplicateObjects { ids, delta } => RenderScenePatch::DuplicateObjects {
                ids: copy_strings(ids),
                delta: *delta,
            },
            RenderScenePatch::Batch { ops } => {
                proof {
                    assert forall|i: int| 0 <= i < ops@.len() implies decreases_to!(*self => #[trigger] ops@[i]) by {
                        assert(decreases_to!(*self => *ops));
                        assert(decreases_to!(*ops => ops@));
                        assert(decreases_to!(ops@ => ops@[i]));
                    }
                }
                RenderScenePatch::Batch { ops: copy_patches(ops, Ghost(*self)) }
            },
            RenderScenePatch::GroupObjects { ids, frame_id, parent_group_id, title, bounds } => {
                RenderScenePatch::GroupObjects {
                    ids: copy_strings(ids),
                    frame_id: frame_id.clone(),
                    parent_group_id: copy_opt_str(parent_group_id),
                    title: copy_opt_str(title),
                    bounds: *bounds,
                }
            },
            RenderScenePatch::SetObjectGroup { ids, frame_id } => RenderScenePatch::SetObjectGroup {
                ids: copy_strings(ids),
                frame_id: frame_id.clone(),
            },
            RenderScenePatch::CreateTag { tag } => RenderScenePatch::CreateTag { tag: tag.copy_of() },
        }
    }
}

/// A copy of a list of patches, each nested inside `whole`.
fn copy_patches(ops: &Vec<RenderScenePatch>, Ghost(whole): Ghost<RenderScenePatch>) -> (r: Vec<RenderScenePatch>)
    requires
        forall|i: int| 0 <= i < ops@.len() ==> decreases_to!(whole => #[trigger] ops@[i]),
    ensures
        patch_views(r@) == patch_views(ops@),
    decreases whole, 0int,
{
    let mut r: Vec<RenderScenePatch> = Vec::new();
    let mut i: usize = 0;
    proof {
        lemma_patch_views_index(ops@);
    }
    while i < ops.len()
        invariant
            i <= ops@.len(),
            forall|j: int| 0 <= j < ops@.len() ==> decreases_to!(whole => #[trigger] ops@[j]),
            patch_views(r@) == patch_views(ops@).subrange(0, i as int),
            patch_views(ops@).len() == ops@.len(),
            forall|j: int| 0 <= j < ops@.len() ==> #[trigger] patch_views(ops@)[j] == patch_view(ops@[j]),
        decreases ops@.len() - i,
    {
        assert(decreases_to!(whole => ops@[i as int]));
        let c = ops[i].copy_of();
        let ghost before = r@;
        r.push(c);
        proof {
            assert(r@.drop_last() =~= before);
            assert(patch_views(ops@).subrange(0, i + 1) =~= patch_views(ops@).subrange(0, i as int).push(c@));
        }
        i = i + 1;
    }
    proof {
        assert(patch_views(ops@).subrange(0, ops@.len() as int) =~= patch_views(ops@));
    }
    r
}

impl ExtendedOpPatch {
    /// A copy with the same contents.
    pub fn copy_of(&self) -> (r: Self)
        ensures
            r@ == self@,
    {
        match self {
            ExtendedOpPatch::AddComment { target, body } => ExtendedOpPatch::AddComment {
                target: target.copy_of(),
                body: body.clone(),
            },
            ExtendedOpPatch::Export { scope_ids, export_type } => ExtendedOpPatch::Export {
                scope_ids: copy_strings(scope_ids),
                export_type: *export_type,
            },
            ExtendedOpPatch::AcceptProposal { proposal_id } => ExtendedOpPatch::AcceptProposal {
                proposal_id: proposal_id.clone(),
            },
            ExtendedOpPatch::RejectProposal { proposal_id } => ExtendedOpPatch::RejectProposal {
                proposal_id: proposal_id.clone(),
            },
        }
    }
}

impl ExtendedRenderPatch {
    /// A copy with the same contents.
    pub fn copy_of(&self) -> (r: Self)
        ensures
            r@ == self@,
    {
        match self {
            ExtendedRenderPatch::Render(p) => ExtendedRenderPatch::Render(p.copy_of()),
            ExtendedRenderPatch::Extended(e) => ExtendedRenderPatch::Extended(e.copy_of()),
        }
    }
}

} // verus!
