//! The scene-level data model: the decision graph (nodes, edges), the placed
//! scene around it (groups, cards, tags, comments, selection) and the export
//! kinds.
//!
//! Real-valued quantities (confidence, positions, sizes, z-order) are carried
//! as the IEEE-754 bit patterns of their `f64` values: the logic here moves
//! them around and never computes with them.

use vstd::prelude::*;

use crate::graph::views;
use crate::lww::clone_json;
use crate::text::{copy_strings, strs};

verus! {

#[verifier::external_type_specification]
#[verifier::external_body]
#[verifier::reject_recursive_types(K)]
#[verifier::reject_recursive_types(V)]
pub struct ExJsonMap<K, V>(serde_json::Map<K, V>);

/// Free-form metadata attached to scene entities.
pub type ObjectMeta = serde_json::Map<String, serde_json::Value>;

#[derive(Clone, Copy, Debug, PartialEq, Eq, Structural)]
pub enum ExportType {
    Madr,
    Yadr,
    ImagePrompt,
    AiPlanMd,
    DesignDocMd,
    ConfluenceHtml,
    Mermaid,
    ArchitectureImage,
}

/// A 2-D point; each coordinate is the bit pattern of an `f64`.
#[derive(Clone, Copy, Debug, PartialEq, Eq, Structural)]
pub struct Point {
    pub x: u64,
    pub y: u64,
}

/// A 2-D extent; each side is the bit pattern of an `f64`.
#[derive(Clone, Copy, Debug, PartialEq, Eq, Structural)]
pub struct Size {
    pub width: u64,
    pub height: u64,
}

/// An axis-aligned box; each field is the bit pattern of an `f64`.
#[derive(Clone, Copy, Debug, PartialEq, Eq, Structural)]
pub struct Bounds {
    pub x: u64,
    pub y: u64,
    pub width: u64,
    pub height: u64,
}

#[derive(Clone, Copy, Debug, PartialEq, Eq, Structural)]
pub enum NodeType {
    Proposition,
    DecisionPoint,
    Option,
    Evidence,
    Tradeoff,
    Blocker,
    Subdecision,
    Task,
    Artifact,
}

#[derive(Clone, Copy, Debug, PartialEq, Eq, Structural)]
pub enum EdgeType {
    DependsOn,
    Supports,
    Blocks,
    TradesOffWith,
    ChoosesBetween,
    DecomposesTo,
    Produces,
}

#[derive(Clone, Copy, Debug, PartialEq, Eq, Structural)]
pub enum NodeStatus {
    Draft,
    Viable,
    Conditional,
    Infeasible,
    Unknown,
    Selected,
    Deferred,
    Complete,
}

/// A decision-graph node, free of placement.
#[derive(Clone, Debug, PartialEq)]
pub struct GraphNode {
    pub id: String,
    pub node_type: NodeType,
    pub title: String,
    pub summary: String,
    pub detail: String,
    pub status: NodeStatus,
    /// Bit pattern of the `f64` confidence in `[0, 1]`.
    pub confidence: u64,
    pub evidence_refs: Vec<String>,
    pub child_decision_ids: Vec<String>,
}

pub struct GraphNodeView {
    pub id: Seq<char>,
    pub node_type: NodeType,
    pub title: Seq<char>,
    pub summary: Seq<char>,
    pub detail: Seq<char>,
    pub status: NodeStatus,
    pub confidence: u64,
    pub evidence_refs: Seq<Seq<char>>,
    pub child_decision_ids: Seq<Seq<char>>,
}

impl View for GraphNode {
    type V = GraphNodeView;

    open spec fn view(&self) -> GraphNodeView {
        GraphNodeView {
            id: self.id@,
            node_type: self.node_type,
            title: self.title@,
            summary: self.summary@,
            detail: self.detail@,
            status: self.status,
            confidence: self.confidence,
            evidence_refs: strs(self.evidence_refs@),
            child_decision_ids: strs(self.child_decision_ids@),
        }
    }
}

impl GraphNode {
    /// A copy with the same contents.
    pub fn copy_of(&self) -> (r: Self)
        ensures
            r@ == self@,
    {
        GraphNode {
            id: self.id.clone(),
            node_type: self.node_type,
            title: self.title.clone(),
            summary: self.summary.clone(),
            detail: self.detail.clone(),
            status: self.status,
            confidence: self.confidence,
            evidence_refs: copy_strings(&self.evidence_refs),
            child_decision_ids: copy_strings(&self.child_decision_ids),
        }
    }
}

/// A decision-graph edge, free of placement.
#[derive(Clone, Debug, PartialEq)]
pub struct GraphEdge {
    pub id: String,
    pub edge_type: EdgeType,
    pub source: String,
    pub target: String,
    pub label: String,
    pub rationale: String,
    /// Bit pattern of the `f64` confidence in `[0, 1]`.
    pub confidence: u64,
}

pub struct GraphEdgeView {
    pub id: Seq<char>,
    pub edge_type: EdgeType,
    pub source: Seq<char>,
    pub target: Seq<char>,
    pub label: Seq<char>,
    pub rationale: Seq<char>,
    pub confidence: u64,
}

impl View for GraphEdge {
    type V = GraphEdgeView;

    open spec fn view(&self) -> GraphEdgeView {
        GraphEdgeView {
            id: self.id@,
            edge_type: self.edge_type,
            source: self.source@,
            target: self.target@,
            label: self.label@,
            rationale: self.rationale@,
            confidence: self.confidence,
        }
    }
}

impl GraphEdge {
    /// A copy with the same contents.
    pub fn copy_of(&self) -> (r: Self)
        ensures
            r@ == self@,
    {
        GraphEdge {
            id: self.id.clone(),
            edge_type: self.edge_type,
            source: self.source.clone(),
            target: self.target.clone(),
            label: self.label.clone(),
            rationale: self.rationale.clone(),
            confidence: self.confidence,
        }
    }
}

/// The views of a list with one more node pushed.
pub proof fn lemma_node_views_push(s: Seq<GraphNode>, x: GraphNode)
    ensures
        node_views(s.push(x)) == node_views(s).push(x@),
{
    assert(node_views(s.push(x)) =~= node_views(s).push(x@));
}

/// The nodes of a list, by their views.
pub open spec fn node_views(v: Seq<GraphNode>) -> Seq<GraphNodeView> {
    v.map_values(|n: GraphNode| n@)
}

/// The views of a list with one more edge pushed.
pub proof fn lemma_edge_views_push(s: Seq<GraphEdge>, x: GraphEdge)
    ensures
        edge_views(s.push(x)) == edge_views(s).push(x@),
{
    assert(edge_views(s.push(x)) =~= edge_views(s).push(x@));
}

/// The edges of a list, by their views.
pub open spec fn edge_views(v: Seq<GraphEdge>) -> Seq<GraphEdgeView> {
    v.map_values(|e: GraphEdge| e@)
}

#[derive(Clone, Debug, PartialEq)]
pub struct DecisionGraph {
    pub version: u32,
    pub nodes: Vec<GraphNode>,
    pub edges: Vec<GraphEdge>,
}

pub struct DecisionGraphView {
    pub version: u32,
    pub nodes: Seq<GraphNodeView>,
    pub edges: Seq<GraphEdgeView>,
}

impl View for DecisionGraph {
    type V = DecisionGraphView;

    open spec fn view(&self) -> DecisionGraphView {
        DecisionGraphView {
            version: self.version,
            nodes: node_views(self.nodes@),
            edges: edge_views(self.edges@),
        }
    }
}

/// A copy of the nodes of a list.
pub fn copy_nodes(v: &Vec<GraphNode>) -> (r: Vec<GraphNode>)
    ensures
        node_views(r@) == node_views(v@),
{
    let mut r: Vec<GraphNode> = Vec::new();
    let mut i: usize = 0;
    while i < v.len()
        invariant
            i <= v@.len(),
            node_views(r@) == node_views(v@).subrange(0, i as int),
        decreases v@.len() - i,
    {
        let c = v[i].copy_of();
        let ghost before = r@;
        r.push(c);
        proof {
            lemma_node_views_push(before, c);
            assert(node_views(v@).subrange(0, i + 1) =~= node_views(v@).subrange(0, i as int).push(c@));
        }
        i = i + 1;
    }
    proof {
        assert(node_views(v@).subrange(0, v@.len() as int) =~= node_views(v@));
    }
    r
}

/// A copy of the edges of a list.
pub fn copy_edges(v: &Vec<GraphEdge>) -> (r: Vec<GraphEdge>)
    ensures
        edge_views(r@) == edge_views(v@),
{
    let mut r: Vec<GraphEdge> = Vec::new();
    let mut i: usize = 0;
    while i < v.len()
        invariant
            i <= v@.len(),
            edge_views(r@) == edge_views(v@).subrange(0, i as int),
        decreases v@.len() - i,
    {
        let c = v[i].copy_of();
        let ghost before = r@;
        r.push(c);
        proof {
            lemma_edge_views_push(before, c);
            assert(edge_views(v@).subrange(0, i + 1) =~= edge_views(v@).subrange(0, i as int).push(c@));
        }
        i = i + 1;
    }
    proof {
        assert(edge_views(v@).subrange(0, v@.len() as int) =~= edge_views(v@));
    }
    r
}

impl DecisionGraph {
    /// A copy with the same contents.
    pub fn copy_of(&self) -> (r: Self)
        ensures
            r@ == self@,
    {
        DecisionGraph {
            version: self.version,
            nodes: copy_nodes(&self.nodes),
            edges: copy_edges(&self.edges),
        }
    }
}

/// What is selected on the scene.
#[derive(Clone, Debug, PartialEq)]
pub enum SceneSelection {
    Canvas,
    Multi { ids: Vec<String> },
    Group { id: String },
    Node { id: String },
    Edge { id: String },
}

#[derive(Clone, Debug, PartialEq)]
pub struct Tag {
    pub id: String,
    pub name: String,
    pub color: String,
    pub description: String,
    pub created_at: String,
    pub updated_at: String,
}

pub struct TagView {
    pub id: Seq<char>,
    pub name: Seq<char>,
    pub color: Seq<char>,
    pub description: Seq<char>,
    pub created_at: Seq<char>,
    pub updated_at: Seq<char>,
}

impl View for Tag {
    type V = TagView;

    open spec fn view(&self) -> TagView {
        TagView {
            id: self.id@,
            name: self.name@,
            color: self.color@,
            description: self.description@,
            created_at: self.created_at@,
            updated_at: self.updated_at@,
        }
    }
}

impl Tag {
    /// A copy with the same contents.
    pub fn copy_of(&self) -> (r: Self)
        ensures
            r@ == self@,
    {
        Tag {
            id: self.id.clone(),
            name: self.name.clone(),
            color: self.color.clone(),
            description: self.description.clone(),
            created_at: self.created_at.clone(),
            updated_at: self.updated_at.clone(),
        }
    }
}

/// A group (frame) of the scene; groups nest through `parent_group_id`.
#[derive(Clone, Debug, PartialEq)]
pub struct SceneGroup {
    pub id: String,
    pub parent_group_id: Option<String>,
    pub title: String,
    pub summary: String,
    pub bounds: Bounds,
    pub tag_ids: Vec<String>,
    /// Bit pattern of the `f64` z-order.
    pub z_index: u64,
    pub collapsed: bool,
    pub created_at: String,
    pub updated_at: String,
    pub meta: Option<ObjectMeta>,
}

/// A placed decision-graph node (a card).
#[derive(Clone, Debug, PartialEq)]
pub struct SceneNode {
    pub id: String,
    pub node_type: NodeType,
    pub title: String,
    pub summary: String,
    pub detail: String,
    pub status: NodeStatus,
    /// Bit pattern of the `f64` confidence.
    pub confidence: u64,
    pub evidence_refs: Vec<String>,
    pub child_decision_ids: Vec<String>,
    pub group_id: String,
    pub position: Point,
    pub size: Size,
    /// Bit pattern of the `f64` z-order.
    pub z_index: u64,
    pub tag_ids: Vec<String>,
    pub updated_at: Option<String>,
    pub meta: Option<ObjectMeta>,
}

/// A placed decision-graph edge.
#[derive(Clone, Debug, PartialEq)]
pub struct SceneEdge {
    pub id: String,
    pub edge_type: EdgeType,
    pub source: String,
    pub target: String,
    pub label: String,
    pub rationale: String,
    /// Bit pattern of the `f64` confidence.
    pub confidence: u64,
    pub group_id: String,
    pub tag_ids: Vec<String>,
    pub updated_at: Option<String>,
    pub meta: Option<ObjectMeta>,
}

/// A comment pinned to a selection target.
#[derive(Clone, Debug, PartialEq)]
pub struct SceneComment {
    pub id: String,
    pub target: SceneSelection,
    pub body: String,
    pub author: String,
    pub resolved: bool,
    pub created_at: String,
    pub updated_at: String,
}

/// The placed scene: groups, cards, edges, tags, comments, artifacts,
/// pending proposals and the selection.
#[derive(Clone, Debug, PartialEq)]
pub struct Scene {
    pub version: u32,
    pub scene_version: i64,
    pub groups: Vec<SceneGroup>,
    pub nodes: Vec<SceneNode>,
    pub edges: Vec<SceneEdge>,
    pub tags: Vec<Tag>,
    pub comments: Vec<SceneComment>,
    pub artifacts: Vec<serde_json::Value>,
    pub proposals: Option<serde_json::Value>,
    pub selection: SceneSelection,
    pub updated_at: String,
}

/// A point of the world plane.
pub type WorldPoint = Point;

/// A rectangle of the world plane.
pub type WorldRect = Bounds;

/// The characters of an optional string.
pub open spec fn opt_str(o: Option<String>) -> Option<Seq<char>> {
    match o {
        Some(s) => Some(s@),
        None => None,
    }
}

/// A copy of an optional string.
pub fn copy_opt_str(o: &Option<String>) -> (r: Option<String>)
    ensures
        opt_str(r) == opt_str(*o),
{
    match o {
        Some(s) => Some(s.clone()),
        None => None,
    }
}

/// `serde_json::Map::clone`: a deep copy, equal to the value copied.
#[verifier::external_body]
fn clone_meta(m: &ObjectMeta) -> (r: ObjectMeta)
    ensures
        r == *m,
{
    m.clone()
}

/// A copy of optional metadata.
pub fn copy_meta(o: &Option<ObjectMeta>) -> (r: Option<ObjectMeta>)
    ensures
        r == *o,
{
    match o {
        Some(m) => Some(clone_meta(m)),
        None => None,
    }
}

pub enum SelectionView {
    Canvas,
    Multi { ids: Seq<Seq<char>> },
    Group { id: Seq<char> },
    Node { id: Seq<char> },
    Edge { id: Seq<char> },
}

impl View for SceneSelection {
    type V = SelectionView;

    open spec fn view(&self) -> SelectionView {
        match self {
            SceneSelection::Canvas => SelectionView::Canvas,
            SceneSelection::Multi { ids } => SelectionView::Multi { ids: strs(ids@) },
            SceneSelection::Group { id } => SelectionView::Group { id: id@ },
            SceneSelection::Node { id } => SelectionView::Node { id: id@ },
            SceneSelection::Edge { id } => SelectionView::Edge { id: id@ },
        }
    }
}

impl SceneSelection {
    /// A copy with the same contents.
    pub fn copy_of(&self) -> (r: Self)
        ensures
            r@ == self@,
    {
        match self {
            SceneSelection::Canvas => SceneSelection::Canvas,
            SceneSelection::Multi { ids } => SceneSelection::Multi { ids: copy_strings(ids) },
            SceneSelection::Group { id } => SceneSelection::Group { id: id.clone() },
            SceneSelection::Node { id } => SceneSelection::Node { id: id.clone() },
            SceneSelection::Edge { id } => SceneSelection::Edge { id: id.clone() },
        }
    }
}

pub struct SceneGroupView {
    pub id: Seq<char>,
    pub parent_group_id: Option<Seq<char>>,
    pub title: Seq<char>,
    pub summary: Seq<char>,
    pub bounds: Bounds,
    pub tag_ids: Seq<Seq<char>>,
    pub z_index: u64,
    pub collapsed: bool,
    pub created_at: Seq<char>,
    pub updated_at: Seq<char>,
    pub meta: Option<ObjectMeta>,
}

impl View for SceneGroup {
    type V = SceneGroupView;

    open spec fn view(&self) -> SceneGroupView {
        SceneGroupView {
            id: self.id@,
            parent_group_id: opt_str(self.parent_group_id),
            title: self.title@,
            summary: self.summary@,
            bounds: self.bounds,
            tag_ids: strs(self.tag_ids@),
            z_index: self.z_index,
            collapsed: self.collapsed,
            created_at: self.created_at@,
            updated_at: self.updated_at@,
            meta: self.meta,
        }
    }
}

impl SceneGroup {
    /// A copy with the same contents.
    pub fn copy_of(&self) -> (r: Self)
        ensures
            r@ == self@,
    {
        SceneGroup {
            id: self.id.clone(),
            parent_group_id: copy_opt_str(&self.parent_group_id),
            title: self.title.clone(),
            summary: self.summary.clone(),
            bounds: self.bounds,
            tag_ids: copy_strings(&self.tag_ids),
            z_index: self.z_index,
            collapsed: self.collapsed,
            created_at: self.created_at.clone(),
            updated_at: self.updated_at.clone(),
            meta: copy_meta(&self.meta),
        }
    }
}

pub struct SceneNodeView {
    pub id: Seq<char>,
    pub node_type: NodeType,
    pub title: Seq<char>,
    pub summary: Seq<char>,
    pub detail: Seq<char>,
    pub status: NodeStatus,
    pub confidence: u64,
    pub evidence_refs: Seq<Seq<char>>,
    pub child_decision_ids: Seq<Seq<char>>,
    pub group_id: Seq<char>,
    pub position: Point,
    pub size: Size,
    pub z_index: u64,
    pub tag_ids: Seq<Seq<char>>,
    pub updated_at: Option<Seq<char>>,
    pub meta: Option<ObjectMeta>,
}

impl View for SceneNode {
    type V = SceneNodeView;

    open spec fn view(&self) -> SceneNodeView {
        SceneNodeView {
            id: self.id@,
            node_type: self.node_type,
            title: self.title@,
            summary: self.summary@,
            detail: self.detail@,
            status: self.status,
            confidence: self.confidence,
            evidence_refs: strs(self.evidence_refs@),
            child_decision_ids: strs(self.child_decision_ids@),
            group_id: self.group_id@,
            position: self.position,
            size: self.size,
            z_index: self.z_index,
            tag_ids: strs(self.tag_ids@),
            updated_at: opt_str(self.updated_at),
            meta: self.meta,
        }
    }
}

impl SceneNode {
    /// A copy with the same contents.
    pub fn copy_of(&self) -> (r: Self)
        ensures
            r@ == self@,
    {
        SceneNode {
            id: self.id.clone(),
            node_type: self.node_type,
            title: self.title.clone(),
            summary: self.summary.clone(),
            detail: self.detail.clone(),
            status: self.status,
            confidence: self.confidence,
            evidence_refs: copy_strings(&self.evidence_refs),
            child_decision_ids: copy_strings(&self.child_decision_ids),
            group_id: self.group_id.clone(),
            position: self.position,
            size: self.size,
            z_index: self.z_index,
            tag_ids: copy_strings(&self.tag_ids),
            updated_at: copy_opt_str(&self.updated_at),
            meta: copy_meta(&self.meta),
        }
    }
}

pub struct SceneEdgeView {
    pub id: Seq<char>,
    pub edge_type: EdgeType,
    pub source: Seq<char>,
    pub target: Seq<char>,
    pub label: Seq<char>,
    pub rationale: Seq<char>,
    pub confidence: u64,
    pub group_id: Seq<char>,
    pub tag_ids: Seq<Seq<char>>,
    pub updated_at: Option<Seq<char>>,
    pub meta: Option<ObjectMeta>,
}

impl View for SceneEdge {
    type V = SceneEdgeView;

    open spec fn view(&self) -> SceneEdgeView {
        SceneEdgeView {
            id: self.id@,
            edge_type: self.edge_type,
            source: self.source@,
            target: self.target@,
            label: self.label@,
            rationale: self.rationale@,
            confidence: self.confidence,
            group_id: self.group_id@,
            tag_ids: strs(self.tag_ids@),
            updated_at: opt_str(self.updated_at),
            meta: self.meta,
        }
    }
}

impl SceneEdge {
    /// A copy with the same contents.
    pub fn copy_of(&self) -> (r: Self)
        ensures
            r@ == self@,
    {
        SceneEdge {
            id: self.id.clone(),
            edge_type: self.edge_type,
            source: self.source.clone(),
            target: self.target.clone(),
            label: self.label.clone(),
            rationale: self.rationale.clone(),
            confidence: self.confidence,
            group_id: self.group_id.clone(),
            tag_ids: copy_strings(&self.tag_ids),
            updated_at: copy_opt_str(&self.updated_at),
            meta: copy_meta(&self.meta),
        }
    }
}

pub struct SceneCommentView {
    pub id: Seq<char>,
    pub target: SelectionView,
    pub body: Seq<char>,
    pub author: Seq<char>,
    pub resolved: bool,
    pub created_at: Seq<char>,
    pub updated_at: Seq<char>,
}

impl View for SceneComment {
    type V = SceneCommentView;

    open spec fn view(&self) -> SceneCommentView {
        SceneCommentView {
            id: self.id@,
            target: self.target@,
            body: self.body@,
            author: self.author@,
            resolved: self.resolved,
            created_at: self.created_at@,
            updated_at: self.updated_at@,
        }
    }
}

impl SceneComment {
    /// A copy with the same contents.
    pub fn copy_of(&self) -> (r: Self)
        ensures
            r@ == self@,
    {
        SceneComment {
            id: self.id.clone(),
            target: self.target.copy_of(),
            body: self.body.clone(),
            author: self.author.clone(),
            resolved: self.resolved,
            created_at: self.created_at.clone(),
            updated_at: self.updated_at.clone(),
        }
    }
}

pub struct SceneView {
    pub version: u32,
    pub scene_version: i64,
    pub groups: Seq<SceneGroupView>,
    pub nodes: Seq<SceneNodeView>,
    pub edges: Seq<SceneEdgeView>,
    pub tags: Seq<TagView>,
    pub comments: Seq<SceneCommentView>,
    pub artifacts: Seq<serde_json::Value>,
    pub proposals: Option<serde_json::Value>,
    pub selection: SelectionView,
    pub updated_at: Seq<char>,
}

impl View for Scene {
    type V = SceneView;

    open spec fn view(&self) -> SceneView {
        SceneView {
            version: self.version,
            scene_version: self.scene_version,
            groups: views(self.groups@),
            nodes: views(self.nodes@),
            edges: views(self.edges@),
            tags: views(self.tags@),
            comments: views(self.comments@),
            artifacts: self.artifacts@,
            proposals: self.proposals,
            selection: self.selection@,
            updated_at: self.updated_at@,
        }
    }
}

/// A copy of a list of entities, item by item.
pub fn copy_all<T: Copyable>(v: &Vec<T>) -> (r: Vec<T>)
    ensures
        views(r@) == views(v@),
{
    let mut r: Vec<T> = Vec::new();
    let mut i: usize = 0;
    while i < v.len()
        invariant
            i <= v@.len(),
            views(r@) == views(v@).subrange(0, i as int),
        decreases v@.len() - i,
    {
        let c = v[i].copy_value();
        let ghost before = r@;
        r.push(c);
        proof {
            assert(views(r@) =~= views(before).push(c@));
            assert(views(v@).subrange(0, i + 1) =~= views(v@).subrange(0, i as int).push(c@));
        }
        i = i + 1;
    }
    proof {
        assert(views(v@).subrange(0, v@.len() as int) =~= views(v@));
    }
    r
}

/// A value that can be copied with the same view.
pub trait Copyable: Sized + View {
    fn copy_value(&self) -> (r: Self)
        ensures
            r@ == self@,
    ;
}

impl Copyable for SceneGroup {
    fn copy_value(&self) -> (r: Self) {
        self.copy_of()
    }
}

impl Copyable for SceneNode {
    fn copy_value(&self) -> (r: Self) {
        self.copy_of()
    }
}

impl Copyable for SceneEdge {
    fn copy_value(&self) -> (r: Self) {
        self.copy_of()
    }
}

impl Copyable for SceneComment {
    fn copy_value(&self) -> (r: Self) {
        self.copy_of()
    }
}

impl Copyable for Tag {
    fn copy_value(&self) -> (r: Self) {
        self.copy_of()
    }
}

/// A copy of a list of JSON values.
pub fn copy_json_values(v: &Vec<serde_json::Value>) -> (r: Vec<serde_json::Value>)
    ensures
        r@ == v@,
{
    let mut r: Vec<serde_json::Value> = Vec::new();
    let mut i: usize = 0;
    while i < v.len()
        invariant
            i <= v@.len(),
            r@ == v@.subrange(0, i as int),
        decreases v@.len() - i,
    {
        r.push(clone_json(&v[i]));
        proof {
            assert(r@ =~= v@.subrange(0, i + 1));
        }
        i = i + 1;
    }
    proof {
        assert(v@.subrange(0, v@.len() as int) =~= v@);
    }
    r
}

impl Scene {
    /// A copy with the same contents.
    pub fn copy_of(&self) -> (r: Self)
        ensures
            r@ == self@,
    {
        Scene {
            version: self.version,
            scene_version: self.scene_version,
            groups: copy_all(&self.groups),
            nodes: copy_all(&self.nodes),
            edges: copy_all(&self.edges),
            tags: copy_all(&self.tags),
            comments: copy_all(&self.comments),
            artifacts: copy_json_values(&self.artifacts),
            proposals: match &self.proposals {
                Some(p) => Some(clone_json(p)),
                None => None,
            },
            selection: self.selection.copy_of(),
            updated_at: self.updated_at.clone(),
        }
    }
}

/// Moves a group and its cards by an offset; `dx`, `dy` are `f64` bit patterns.
#[derive(Clone, Debug, PartialEq)]
pub struct TranslateGroup {
    pub group_id: String,
    pub dx: u64,
    pub dy: u64,
}

pub struct TranslateGroupView {
    pub group_id: Seq<char>,
    pub dx: u64,
    pub dy: u64,
}

impl View for TranslateGroup {
    type V = TranslateGroupView;

    open spec fn view(&self) -> TranslateGroupView {
        TranslateGroupView { group_id: self.group_id@, dx: self.dx, dy: self.dy }
    }
}

impl Copyable for TranslateGroup {
    fn copy_value(&self) -> (r: Self) {
        TranslateGroup { group_id: self.group_id.clone(), dx: self.dx, dy: self.dy }
    }
}

/// A bulk change of the scene: entities to upsert, groups to translate,
/// ids to remove and the selection to set; an absent part changes nothing.
#[derive(Debug, PartialEq)]
pub struct ScenePatch {
    pub groups: Option<Vec<SceneGroup>>,
    pub nodes: Option<Vec<SceneNode>>,
    pub edges: Option<Vec<SceneEdge>>,
    pub translate_groups: Option<Vec<TranslateGroup>>,
    pub remove_group_ids: Option<Vec<String>>,
    pub remove_node_ids: Option<Vec<String>>,
    pub remove_edge_ids: Option<Vec<String>>,
    pub selection: Option<SceneSelection>,
}

pub struct ScenePatchView {
    pub groups: Option<Seq<SceneGroupView>>,
    pub nodes: Option<Seq<SceneNodeView>>,
    pub edges: Option<Seq<SceneEdgeView>>,
    pub translate_groups: Option<Seq<TranslateGroupView>>,
    pub remove_group_ids: Option<Seq<Seq<char>>>,
    pub remove_node_ids: Option<Seq<Seq<char>>>,
    pub remove_edge_ids: Option<Seq<Seq<char>>>,
    pub selection: Option<SelectionView>,
}

/// The views of an optional list.
pub open spec fn opt_views<T: View>(o: Option<Vec<T>>) -> Option<Seq<T::V>> {
    match o {
        Some(v) => Some(views(v@)),
        None => None,
    }
}

/// The characters of each string of an optional list.
pub open spec fn opt_strs(o: Option<Vec<String>>) -> Option<Seq<Seq<char>>> {
    match o {
        Some(v) => Some(strs(v@)),
        None => None,
    }
}

impl View for ScenePatch {
    type V = ScenePatchView;

    open spec fn view(&self) -> ScenePatchView {
        ScenePatchView {
            groups: opt_views(self.groups),
            nodes: opt_views(self.nodes),
            edges: opt_views(self.edges),
            translate_groups: opt_views(self.translate_groups),
            remove_group_ids: opt_strs(self.remove_group_ids),
            remove_node_ids: opt_strs(self.remove_node_ids),
            remove_edge_ids: opt_strs(self.remove_edge_ids),
            selection: match self.selection {
                Some(s) => Some(s@),
                None => None,
            },
        }
    }
}

/// The patch that changes nothing.
pub open spec fn empty_scene_patch() -> ScenePatchView {
    ScenePatchView {
        groups: None,
        nodes: None,
        edges: None,
        translate_groups: None,
        remove_group_ids: None,
        remove_node_ids: None,
        remove_edge_ids: None,
        selection: None,
    }
}

impl Default for ScenePatch {
    fn default() -> (r: Self)
        ensures
            r@ == empty_scene_patch(),
    {
        ScenePatch {
            groups: None,
            nodes: None,
            edges: None,
            translate_groups: None,
            remove_group_ids: None,
            remove_node_ids: None,
            remove_edge_ids: None,
            selection: None,
        }
    }
}

/// A copy of an optional list of entities.
pub fn copy_opt_all<T: Copyable>(o: &Option<Vec<T>>) -> (r: Option<Vec<T>>)
    ensures
        opt_views(r) == opt_views(*o),
{
    match o {
        Some(v) => Some(copy_all(v)),
        None => None,
    }
}

/// A copy of an optional list of strings.
pub fn copy_opt_strings(o: &Option<Vec<String>>) -> (r: Option<Vec<String>>)
    ensures
        opt_strs(r) == opt_strs(*o),
{
    match o {
        Some(v) => Some(copy_strings(v)),
        None => None,
    }
}

impl ScenePatch {
    /// A copy with the same contents.
    pub fn copy_of(&self) -> (r: Self)
        ensures
            r@ == self@,
    {
        ScenePatch {
            groups: copy_opt_all(&self.groups),
            nodes: copy_opt_all(&self.nodes),
            edges: copy_opt_all(&self.edges),
            translate_groups: copy_opt_all(&self.translate_groups),
            remove_group_ids: copy_opt_strings(&self.remove_group_ids),
            remove_node_ids: copy_opt_strings(&self.remove_node_ids),
            remove_edge_ids: copy_opt_strings(&self.remove_edge_ids),
            selection: match &self.selection {
                Some(s) => Some(s.copy_of()),
                None => None,
            },
        }
    }
}

} // verus!
