//! The envelope every committed edit travels in (who, when, against which
//! revision, which targets), the derivation of an edit's target ids, and an
//! append-only log of envelopes.

use vstd::prelude::*;

use crate::graph::{keep, views};
use crate::model::{copy_opt_str, opt_str, SceneSelection, SelectionView};
use crate::op::{
    lemma_patch_views_index, patch_view, patch_views, ExtendedOpPatch, ExtendedOpView, ExtendedRenderPatch,
    ExtendedRenderView, PatchView, RenderScenePatch,
};
use crate::text::{copy_strings, lemma_strs_push, push_str, str_eq, strs};

verus! {

/// Who authored an edit.
#[derive(Clone, Copy, Debug, PartialEq, Eq, Structural)]
pub enum ActorType {
    Human,
    Mcp,
    System,
}

/// The tool call an edit came from.
#[derive(Clone, Debug, PartialEq)]
pub struct SourceToolCall {
    pub tool: String,
    pub call_id: Option<String>,
}

pub struct SourceToolCallView {
    pub tool: Seq<char>,
    pub call_id: Option<Seq<char>>,
}

impl View for SourceToolCall {
    type V = SourceToolCallView;

    open spec fn view(&self) -> SourceToolCallView {
        SourceToolCallView { tool: self.tool@, call_id: opt_str(self.call_id) }
    }
}

/// An edit with its undo, trace and audit metadata.
#[derive(Debug, PartialEq)]
pub struct OperationEnvelope {
    pub operation_id: String,
    pub actor_id: String,
    pub actor_type: ActorType,
    pub client_id: String,
    pub target_ids: Vec<String>,
    pub timestamp: String,
    /// The scene version read before the edit was applied.
    pub base_revision: i64,
    pub source_tool_call: Option<SourceToolCall>,
    pub patch: ExtendedRenderPatch,
}

pub struct OperationEnvelopeView {
    pub operation_id: Seq<char>,
    pub actor_id: Seq<char>,
    pub actor_type: ActorType,
    pub client_id: Seq<char>,
    pub target_ids: Seq<Seq<char>>,
    pub timestamp: Seq<char>,
    pub base_revision: i64,
    pub source_tool_call: Option<SourceToolCallView>,
    pub patch: ExtendedRenderView,
}

impl View for OperationEnvelope {
    type V = OperationEnvelopeView;

    open spec fn view(&self) -> OperationEnvelopeView {
        OperationEnvelopeView {
            operation_id: self.operation_id@,
            actor_id: self.actor_id@,
            actor_type: self.actor_type,
            client_id: self.client_id@,
            target_ids: strs(self.target_ids@),
            timestamp: self.timestamp@,
            base_revision: self.base_revision,
            source_tool_call: match self.source_tool_call {
                Some(c) => Some(c@),
                None => None,
            },
            patch: self.patch@,
        }
    }
}

impl OperationEnvelope {
    /// A copy with the same contents.
    pub fn copy_of(&self) -> (r: Self)
        ensures
            r@ == self@,
    {
        OperationEnvelope {
            operation_id: self.operation_id.clone(),
            actor_id: self.actor_id.clone(),
            actor_type: self.actor_type,
            client_id: self.client_id.clone(),
            target_ids: copy_strings(&self.target_ids),
            timestamp: self.timestamp.clone(),
            base_revision: self.base_revision,
            source_tool_call: match &self.source_tool_call {
                Some(c) => Some(SourceToolCall { tool: c.tool.clone(), call_id: copy_opt_str(&c.call_id) }),
                None => None,
            },
            patch: self.patch.copy_of(),
        }
    }
}

// ---------------------------------------------------------------------------
// Target ids
// ---------------------------------------------------------------------------

/// The ids a selection designates.
pub open spec fn selection_targets(s: SelectionView) -> Seq<Seq<char>> {
    match s {
        SelectionView::Canvas => seq![],
        SelectionView::Multi { ids } => ids,
        SelectionView::Group { id } => seq![id],
        SelectionView::Node { id } => seq![id],
        SelectionView::Edge { id } => seq![id],
    }
}

/// The ids a render patch targets; a batch targets those of its ops, in order.
pub open spec fn render_targets(p: PatchView) -> Seq<Seq<char>>
    decreases p,
{
    match p {
        PatchView::CreateCard { card } => seq![card.id],
        PatchView::CreateGroup { group } => seq![group.id],
        PatchView::CreateEdge { edge_id, source, target, .. } => seq![edge_id, source, target],
        PatchView::MoveCard { id, .. } => seq![id],
        PatchView::SetCardZIndex { id, .. } => seq![id],
        PatchView::EditCardText { id, .. } => seq![id],
        PatchView::DeleteCard { id } => seq![id],
        PatchView::MoveGroup { id, .. } => seq![id],
        PatchView::DeleteGroup { id } => seq![id],
        PatchView::DeleteEdge { id } => seq![id],
        PatchView::ResizeCard { id, .. } => seq![id],
        PatchView::ResizeGroup { id, .. } => seq![id],
        PatchView::Ungroup { id } => seq![id],
        PatchView::SetObjectTags { id, .. } => seq![id],
        PatchView::Select { selection } => selection_targets(selection),
        PatchView::AlignCards { ids, .. } => ids,
        PatchView::DistributeCards { ids, .. } => ids,
        PatchView::DuplicateObjects { ids, .. } => ids,
        PatchView::Batch { ops } => batch_targets(ops),
        PatchView::GroupObjects { frame_id, ids, .. } => seq![frame_id] + ids,
        PatchView::SetObjectGroup { frame_id, ids } => seq![frame_id] + ids,
        PatchView::CreateTag { tag } => seq![tag.id],
    }
}

/// The ids of each patch of a list, concatenated in order.
pub open spec fn batch_targets(ops: Seq<PatchView>) -> Seq<Seq<char>>
    decreases ops,
{
    if ops.len() == 0 {
        seq![]
    } else {
        batch_targets(ops.drop_last()) + render_targets(ops.last())
    }
}

/// The ids an extended operation targets.
pub open spec fn extended_targets(e: ExtendedOpView) -> Seq<Seq<char>> {
    match e {
        ExtendedOpView::AddComment { target, .. } => selection_targets(target),
        ExtendedOpView::Export { scope_ids, .. } => scope_ids,
        ExtendedOpView::AcceptProposal { proposal_id } => seq![proposal_id],
        ExtendedOpView::RejectProposal { proposal_id } => seq![proposal_id],
    }
}

/// The ids any edit targets.
pub open spec fn patch_targets(p: ExtendedRenderView) -> Seq<Seq<char>> {
    match p {
        ExtendedRenderView::Render(r) => render_targets(r),
        ExtendedRenderView::Extended(e) => extended_targets(e),
    }
}

fn selection_target_ids(selection: &SceneSelection) -> (r: Vec<String>)
    ensures
        strs(r@) == selection_targets(selection@),
{
    match selection {
        SceneSelection::Canvas => {
            let r: Vec<String> = Vec::new();
            proof {
                assert(strs(r@) =~= Seq::<Seq<char>>::empty());
            }
            r
        },
        SceneSelection::Multi { ids } => copy_strings(ids),
        SceneSelection::Group { id } | SceneSelection::Node { id } | SceneSelection::Edge { id } => {
            one_id(id)
        },
    }
}

/// A list holding a copy of `id`.
fn one_id(id: &String) -> (r: Vec<String>)
    ensures
        strs(r@) == seq![id@],
{
    let mut r: Vec<String> = Vec::new();
    r.push(id.clone());
    proof {
        assert(strs(r@) =~= seq![id@]);
    }
    r
}

/// Appends copies of `ids` to `out`.
pub(crate) fn extend_ids(out: &mut Vec<String>, ids: &Vec<String>)
    ensures
        strs(final(out)@) == strs(old(out)@) + strs(ids@),
{
    let mut i: usize = 0;
    while i < ids.len()
        invariant
            i <= ids@.len(),
            strs(out@) == strs(old(out)@) + strs(ids@).subrange(0, i as int),
        decreases ids@.len() - i,
    {
        let ghost before = out@;
        out.push(ids[i].clone());
        proof {
            assert(out@.drop_last() =~= before);
            assert(strs(out@) =~= strs(before).push(ids@[i as int]@));
            assert(strs(ids@).subrange(0, i + 1) =~= strs(ids@).subrange(0, i as int).push(ids@[i as int]@));
            assert(strs(old(out)@) + strs(ids@).subrange(0, i + 1) =~= (strs(old(out)@) + strs(ids@).subrange(
                0,
                i as int,
            )).push(ids@[i as int]@));
        }
        i = i + 1;
    }
    proof {
        assert(strs(ids@).subrange(0, ids@.len() as int) =~= strs(ids@));
    }
}

/// A list holding `first` followed by copies of `ids`.
fn leading_id(first: &String, ids: &Vec<String>) -> (r: Vec<String>)
    ensures
        strs(r@) == seq![first@] + strs(ids@),
{
    let mut out = one_id(first);
    extend_ids(&mut out, ids);
    out
}

fn render_target_ids(patch: &RenderScenePatch) -> (r: Vec<String>)
    ensures
        strs(r@) == render_targets(patch@),
    decreases *patch, 1int,
{
    match patch {
        RenderScenePatch::CreateCard { card } => one_id(&card.id),
        RenderScenePatch::CreateGroup { group } => one_id(&group.id),
        RenderScenePatch::CreateEdge { edge_id, source, target, .. } => {
            let mut out = one_id(edge_id);
            let s1 = source.clone();
            let ghost o1 = out@;
            out.push(s1);
            let t1 = target.clone();
            let ghost o2 = out@;
            out.push(t1);
            proof {
                lemma_strs_push(o1, s1);
                lemma_strs_push(o2, t1);
                assert(strs(out@) =~= seq![edge_id@, source@, target@]);
            }
            out
        },
        RenderScenePatch::MoveCard { id, .. } => one_id(id),
        RenderScenePatch::SetCardZIndex { id, .. } => one_id(id),
        RenderScenePatch::EditCardText { id, .. } => one_id(id),
        RenderScenePatch::DeleteCard { id } => one_id(id),
        RenderScenePatch::MoveGroup { id, .. } => one_id(id),
        RenderScenePatch::DeleteGroup { id } => one_id(id),
        RenderScenePatch::DeleteEdge { id } => one_id(id),
        RenderScenePatch::ResizeCard { id, .. } => one_id(id),
        RenderScenePatch::ResizeGroup { id, .. } => one_id(id),
        RenderScenePatch::Ungroup { id } => one_id(id),
        RenderScenePatch::SetObjectTags { id, .. } => one_id(id),
        RenderScenePatch::Select { selection } => selection_target_ids(selection),
        RenderScenePatch::AlignCards { ids, .. } => copy_strings(ids),
        RenderScenePatch::DistributeCards { ids, .. } => copy_strings(ids),
        RenderScenePatch::DuplicateObjects { ids, .. } => copy_strings(ids),
        RenderScenePatch::Batch { ops } => {
            proof {
                assert forall|i: int| 0 <= i < ops@.len() implies decreases_to!(*patch => #[trigger] ops@[i]) by {
                    assert(decreases_to!(*patch => *ops));
                    assert(decreases_to!(*ops => ops@));
                    assert(decreases_to!(ops@ => ops@[i]));
                }
            }
            batch_target_ids(ops, Ghost(*patch))
        },
        RenderScenePatch::GroupObjects { frame_id, ids, .. } => leading_id(frame_id, ids),
        RenderScenePatch::SetObjectGroup { frame_id, ids } => leading_id(frame_id, ids),
        RenderScenePatch::CreateTag { tag } => one_id(&tag.id),
    }
}

fn batch_target_ids(ops: &Vec<RenderScenePatch>, Ghost(whole): Ghost<RenderScenePatch>) -> (r: Vec<String>)
    requires
        forall|i: int| 0 <= i < ops@.len() ==> decreases_to!(whole => #[trigger] ops@[i]),
    ensures
        strs(r@) == batch_targets(patch_views(ops@)),
    decreases whole, 0int,
{
    let mut out: Vec<String> = Vec::new();
    let mut i: usize = 0;
    proof {
        lemma_patch_views_index(ops@);
        assert(patch_views(ops@).subrange(0, 0) =~= Seq::<PatchView>::empty());
        assert(strs(out@) =~= Seq::<Seq<char>>::empty());
    }
    while i < ops.len()
        invariant
            i <= ops@.len(),
            forall|j: int| 0 <= j < ops@.len() ==> decreases_to!(whole => #[trigger] ops@[j]),
            patch_views(ops@).len() == ops@.len(),
            forall|j: int| 0 <= j < ops@.len() ==> #[trigger] patch_views(ops@)[j] == patch_view(ops@[j]),
            strs(out@) == batch_targets(patch_views(ops@).subrange(0, i as int)),
        decreases ops@.len() - i,
    {
        assert(decreases_to!(whole => ops@[i as int]));
        let part = render_target_ids(&ops[i]);
        extend_ids(&mut out, &part);
        proof {
            let t = patch_views(ops@).subrange(0, i + 1);
            assert(t.drop_last() =~= patch_views(ops@).subrange(0, i as int));
            assert(t.last() == patch_view(ops@[i as int]));
        }
        i = i + 1;
    }
    proof {
        assert(patch_views(ops@).subrange(0, ops@.len() as int) =~= patch_views(ops@));
    }
    out
}

fn extended_target_ids(patch: &ExtendedOpPatch) -> (r: Vec<String>)
    ensures
        strs(r@) == extended_targets(patch@),
{
    match patch {
        ExtendedOpPatch::AddComment { target, .. } => selection_target_ids(target),
        ExtendedOpPatch::Export { scope_ids, .. } => copy_strings(scope_ids),
        ExtendedOpPatch::AcceptProposal { proposal_id } | ExtendedOpPatch::RejectProposal { proposal_id } => {
            one_id(proposal_id)
        },
    }
}

/// The ids an edit targets: a card, group, edge or tag its own id; an edge
/// creation its id, source and target; a selection the ids it designates; a
/// grouping the frame followed by its members; a batch those of its ops in
/// order; a comment its target; an export its scope; a proposal decision the
/// proposal.
pub fn derive_target_ids(patch: &ExtendedRenderPatch) -> (r: Vec<String>)
    ensures
        strs(r@) == patch_targets(patch@),
{
    match patch {
        ExtendedRenderPatch::Render(p) => render_target_ids(p),
        ExtendedRenderPatch::Extended(e) => extended_target_ids(e),
    }
}

/// The envelope of a local human edit: operation id `op-{now}-local`, actor
/// `human`, client `local-shell`, stamped `now`, targets derived from the patch.
pub open spec fn local_envelope(patch: ExtendedRenderView, base_revision: i64, now: Seq<char>) -> OperationEnvelopeView {
    OperationEnvelopeView {
        operation_id: "op-"@ + now + "-local"@,
        actor_id: "human"@,
        actor_type: ActorType::Human,
        client_id: "local-shell"@,
        target_ids: patch_targets(patch),
        timestamp: now,
        base_revision,
        source_tool_call: None,
        patch,
    }
}

/// Wraps `patch` in the envelope of a local human edit (see [`local_envelope`]).
pub fn synthesise_local_envelope(patch: ExtendedRenderPatch, base_revision: i64, now: &str) -> (r: OperationEnvelope)
    ensures
        r@ == local_envelope(patch@, base_revision, now@),
{
    let target_ids = derive_target_ids(&patch);
    let mut operation_id = "op-".to_owned();
    push_str(&mut operation_id, now);
    push_str(&mut operation_id, "-local");
    proof {
        reveal_strlit("op-");
        reveal_strlit("-local");
    }
    OperationEnvelope {
        operation_id,
        actor_id: "human".to_owned(),
        actor_type: ActorType::Human,
        client_id: "local-shell".to_owned(),
        target_ids,
        timestamp: now.to_owned(),
        base_revision,
        source_tool_call: None,
        patch,
    }
}

// ---------------------------------------------------------------------------
// The operation log
// ---------------------------------------------------------------------------

/// An append-only list of envelopes, oldest first.
#[derive(Debug, PartialEq)]
pub struct OperationLog {
    pub entries: Vec<OperationEnvelope>,
}

impl View for OperationLog {
    type V = Seq<OperationEnvelopeView>;

    open spec fn view(&self) -> Seq<OperationEnvelopeView> {
        views(self.entries@)
    }
}

impl Default for OperationLog {
    fn default() -> (r: Self)
        ensures
            r@ == Seq::<OperationEnvelopeView>::empty(),
    {
        create_operation_log()
    }
}

/// An empty log.
pub fn create_operation_log() -> (r: OperationLog)
    ensures
        r@ == Seq::<OperationEnvelopeView>::empty(),
{
    let r = OperationLog { entries: Vec::new() };
    proof {
        assert(r@ =~= Seq::<OperationEnvelopeView>::empty());
    }
    r
}

/// A new log: the entries of `log` followed by `envelope`; `log` is untouched.
pub fn append_to_operation_log(log: &OperationLog, envelope: OperationEnvelope) -> (r: OperationLog)
    ensures
        r@ == log@.push(envelope@),
{
    let mut entries: Vec<OperationEnvelope> = Vec::new();
    let mut i: usize = 0;
    while i < log.entries.len()
        invariant
            i <= log.entries@.len(),
            views(entries@) == views(log.entries@).subrange(0, i as int),
        decreases log.entries@.len() - i,
    {
        let c = log.entries[i].copy_of();
        let ghost before = entries@;
        entries.push(c);
        proof {
            assert(views(entries@) =~= views(before).push(c@));
            assert(views(log.entries@).subrange(0, i + 1) =~= views(log.entries@).subrange(0, i as int).push(c@));
        }
        i = i + 1;
    }
    let ghost before = entries@;
    let ghost ev = envelope@;
    entries.push(envelope);
    proof {
        assert(views(log.entries@).subrange(0, log.entries@.len() as int) =~= views(log.entries@));
        assert(views(entries@) =~= views(before).push(ev));
    }
    OperationLog { entries }
}

/// The entries of `log` authored by `actor_id`, oldest first.
pub fn entries_by_actor<'a>(log: &'a OperationLog, actor_id: &str) -> (r: Vec<&'a OperationEnvelope>)
    ensures
        views(r@) == keep(log@, |e: OperationEnvelopeView| e.actor_id == actor_id@),
{
    let ghost p = |e: OperationEnvelopeView| e.actor_id == actor_id@;
    let mut r: Vec<&'a OperationEnvelope> = Vec::new();
    let mut i: usize = 0;
    while i < log.entries.len()
        invariant
            i <= log.entries@.len(),
            p == (|e: OperationEnvelopeView| e.actor_id == actor_id@),
            views(r@) == keep(log@.subrange(0, i as int), p),
        decreases log.entries@.len() - i,
    {
        proof {
            crate::graph::lemma_keep_step(log@, i as int, p);
            assert(log@[i as int] == log.entries@[i as int]@);
        }
        let e = &log.entries[i];
        if str_eq(e.actor_id.as_str(), actor_id) {
            let ghost before = r@;
            r.push(e);
            proof {
                assert(views(r@) =~= views(before).push(e@));
            }
        }
        i = i + 1;
    }
    proof {
        assert(log@.subrange(0, log.entries@.len() as int) =~= log@);
    }
    r
}

/// The entries of `log` whose target ids include `target_id`, oldest first.
pub fn entries_by_target<'a>(log: &'a OperationLog, target_id: &str) -> (r: Vec<&'a OperationEnvelope>)
    ensures
        views(r@) == keep(log@, |e: OperationEnvelopeView| e.target_ids.contains(target_id@)),
{
    let ghost p = |e: OperationEnvelopeView| e.target_ids.contains(target_id@);
    let mut r: Vec<&'a OperationEnvelope> = Vec::new();
    let mut i: usize = 0;
    while i < log.entries.len()
        invariant
            i <= log.entries@.len(),
            p == (|e: OperationEnvelopeView| e.target_ids.contains(target_id@)),
            views(r@) == keep(log@.subrange(0, i as int), p),
        decreases log.entries@.len() - i,
    {
        proof {
            crate::graph::lemma_keep_step(log@, i as int, p);
            assert(log@[i as int] == log.entries@[i as int]@);
        }
        let e = &log.entries[i];
        if crate::text::contains_str(&e.target_ids, target_id) {
            let ghost before = r@;
            r.push(e);
            proof {
                assert(views(r@) =~= views(before).push(e@));
            }
        }
        i = i + 1;
    }
    proof {
        assert(log@.subrange(0, log.entries@.len() as int) =~= log@);
    }
    r
}


/// Each target of each op of a list is a target of the list.
proof fn lemma_batch_targets_cover(ops: Seq<PatchView>)
    ensures
        forall|k: int, x: Seq<char>|
            0 <= k < ops.len() && #[trigger] render_targets(ops[k]).contains(x) ==> batch_targets(ops).contains(x),
    decreases ops,
{
    if ops.len() > 0 {
        let init = ops.drop_last();
        lemma_batch_targets_cover(init);
        let bt = batch_targets(ops);
        assert(bt == batch_targets(init) + render_targets(ops.last()));
        assert forall|k: int, x: Seq<char>|
            0 <= k < ops.len() && #[trigger] render_targets(ops[k]).contains(x) implies bt.contains(x) by {
            if k < ops.len() - 1 {
                assert(init[k] == ops[k]);
                let w = choose|w: int| 0 <= w < batch_targets(init).len() && batch_targets(init)[w] == x;
                assert(bt[w] == x);
            } else {
                let w = choose|w: int| 0 <= w < render_targets(ops.last()).len() && render_targets(ops.last())[w] == x;
                assert(bt[batch_targets(init).len() + w] == x);
            }
        }
    }
}

/// The ids an edit is logged under are the ids it names as created, edited,
/// removed or selected, in the order it names them: a grouping or a
/// regrouping its new frame first, then each member; an edge creation the
/// edge, then its two ends; a card, group or tag creation the new id; a
/// single-object edit (move, layering, text, resize, delete, ungroup,
/// tagging) that object; an align, distribute or duplicate each object
/// named; a selection the selected ids. A batch is logged under every id any
/// of its ops is.
pub proof fn lemma_targets_name_subjects(p: PatchView)
    ensures
        match p {
            PatchView::GroupObjects { frame_id, ids, .. } => render_targets(p).len() == ids.len() + 1
                && render_targets(p)[0] == frame_id && forall|k: int|
                0 <= k < ids.len() ==> render_targets(p)[k + 1] == #[trigger] ids[k],
            PatchView::SetObjectGroup { frame_id, ids } => render_targets(p).len() == ids.len() + 1
                && render_targets(p)[0] == frame_id && forall|k: int|
                0 <= k < ids.len() ==> render_targets(p)[k + 1] == #[trigger] ids[k],
            PatchView::CreateEdge { edge_id, source, target, .. } => render_targets(p) =~= seq![edge_id, source, target],
            PatchView::CreateCard { card } => render_targets(p) =~= seq![card.id],
            PatchView::CreateGroup { group } => render_targets(p) =~= seq![group.id],
            PatchView::CreateTag { tag } => render_targets(p) =~= seq![tag.id],
            PatchView::MoveCard { id, .. } => render_targets(p) =~= seq![id],
            PatchView::SetCardZIndex { id, .. } => render_targets(p) =~= seq![id],
            PatchView::EditCardText { id, .. } => render_targets(p) =~= seq![id],
            PatchView::DeleteCard { id } => render_targets(p) =~= seq![id],
            PatchView::MoveGroup { id, .. } => render_targets(p) =~= seq![id],
            PatchView::DeleteGroup { id } => render_targets(p) =~= seq![id],
            PatchView::DeleteEdge { id } => render_targets(p) =~= seq![id],
            PatchView::ResizeCard { id, .. } => render_targets(p) =~= seq![id],
            PatchView::ResizeGroup { id, .. } => render_targets(p) =~= seq![id],
            PatchView::Ungroup { id } => render_targets(p) =~= seq![id],
            PatchView::SetObjectTags { id, .. } => render_targets(p) =~= seq![id],
            PatchView::AlignCards { ids, .. } => render_targets(p) =~= ids,
            PatchView::DistributeCards { ids, .. } => render_targets(p) =~= ids,
            PatchView::DuplicateObjects { ids, .. } => render_targets(p) =~= ids,
            PatchView::Select { selection } => render_targets(p) =~= match selection {
                SelectionView::Canvas => seq![],
                SelectionView::Multi { ids } => ids,
                SelectionView::Group { id } => seq![id],
                SelectionView::Node { id } => seq![id],
                SelectionView::Edge { id } => seq![id],
            },
            PatchView::Batch { ops } => forall|k: int, x: Seq<char>|
                0 <= k < ops.len() && #[trigger] render_targets(ops[k]).contains(x) ==> render_targets(p).contains(x),
        },
{
    match p {
        PatchView::Batch { ops } => lemma_batch_targets_cover(ops),
        _ => {},
    }
}

} // verus!
