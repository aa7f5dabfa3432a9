//! Decision-graph helpers: patch application, the text digest and Mermaid
//! renderers, subgraph and scene projections, and the display-label maps.
//!
//! Output strings (`graph_text_digest`, `make_mermaid`) follow a fixed byte
//! format so they can be compared against golden text.

use vstd::prelude::*;

use crate::model::{
    copy_edges, copy_nodes, edge_views, node_views, DecisionGraph, DecisionGraphView, EdgeType,
    ExportType, GraphEdge, GraphEdgeView, GraphNode, GraphNodeView, NodeStatus, NodeType, Scene,
    SceneEdge, SceneGroup, SceneNode, SceneSelection, Tag, TagView,
};
use crate::assoc::lemma_distinct_len_bound;
use crate::text::{contains_str, copy_strings, decimal, push_char, push_decimal, push_str, str_eq, strs};

verus! {

// ---------------------------------------------------------------------------
// Display-label maps and wire names
// ---------------------------------------------------------------------------

pub open spec fn node_type_label(t: NodeType) -> Seq<char> {
    match t {
        NodeType::Proposition => "Proposition"@,
        NodeType::DecisionPoint => "Decision point"@,
        NodeType::Option => "Option"@,
        NodeType::Evidence => "Evidence"@,
        NodeType::Tradeoff => "Tradeoff"@,
        NodeType::Blocker => "Blocker"@,
        NodeType::Subdecision => "Subdecision"@,
        NodeType::Task => "Task"@,
        NodeType::Artifact => "Artifact"@,
    }
}

pub open spec fn edge_type_label(t: EdgeType) -> Seq<char> {
    match t {
        EdgeType::DependsOn => "depends on"@,
        EdgeType::Supports => "supports"@,
        EdgeType::Blocks => "blocks"@,
        EdgeType::TradesOffWith => "trades off"@,
        EdgeType::ChoosesBetween => "chooses"@,
        EdgeType::DecomposesTo => "decomposes"@,
        EdgeType::Produces => "produces"@,
    }
}

pub open spec fn export_type_label(t: ExportType) -> Seq<char> {
    match t {
        ExportType::Madr => "MADR Markdown"@,
        ExportType::Yadr => "YADR YAML"@,
        ExportType::ImagePrompt => "Image prompt"@,
        ExportType::AiPlanMd => "AI task plan"@,
        ExportType::DesignDocMd => "MADR Markdown"@,
        ExportType::ConfluenceHtml => "Confluence draft"@,
        ExportType::Mermaid => "Mermaid diagram"@,
        ExportType::ArchitectureImage => "Image prompt"@,
    }
}

/// The snake_case wire name of a node type.
pub open spec fn node_type_wire(t: NodeType) -> Seq<char> {
    match t {
        NodeType::Proposition => "proposition"@,
        NodeType::DecisionPoint => "decision_point"@,
        NodeType::Option => "option"@,
        NodeType::Evidence => "evidence"@,
        NodeType::Tradeoff => "tradeoff"@,
        NodeType::Blocker => "blocker"@,
        NodeType::Subdecision => "subdecision"@,
        NodeType::Task => "task"@,
        NodeType::Artifact => "artifact"@,
    }
}

/// The snake_case wire name of an edge type.
pub open spec fn edge_type_wire(t: EdgeType) -> Seq<char> {
    match t {
        EdgeType::DependsOn => "depends_on"@,
        EdgeType::Supports => "supports"@,
        EdgeType::Blocks => "blocks"@,
        EdgeType::TradesOffWith => "trades_off_with"@,
        EdgeType::ChoosesBetween => "chooses_between"@,
        EdgeType::DecomposesTo => "decomposes_to"@,
        EdgeType::Produces => "produces"@,
    }
}

/// The wire name of a node status.
pub open spec fn node_status_wire(s: NodeStatus) -> Seq<char> {
    match s {
        NodeStatus::Draft => "draft"@,
        NodeStatus::Viable => "viable"@,
        NodeStatus::Conditional => "conditional"@,
        NodeStatus::Infeasible => "infeasible"@,
        NodeStatus::Unknown => "unknown"@,
        NodeStatus::Selected => "selected"@,
        NodeStatus::Deferred => "deferred"@,
        NodeStatus::Complete => "complete"@,
    }
}

pub fn node_type_labels(node_type: NodeType) -> (r: &'static str)
    ensures
        r@ == node_type_label(node_type),
{
    match node_type {
        NodeType::Proposition => "Proposition",
        NodeType::DecisionPoint => "Decision point",
        NodeType::Option => "Option",
        NodeType::Evidence => "Evidence",
        NodeType::Tradeoff => "Tradeoff",
        NodeType::Blocker => "Blocker",
        NodeType::Subdecision => "Subdecision",
        NodeType::Task => "Task",
        NodeType::Artifact => "Artifact",
    }
}

pub fn edge_type_labels(edge_type: EdgeType) -> (r: &'static str)
    ensures
        r@ == edge_type_label(edge_type),
{
    match edge_type {
        EdgeType::DependsOn => "depends on",
        EdgeType::Supports => "supports",
        EdgeType::Blocks => "blocks",
        EdgeType::TradesOffWith => "trades off",
        EdgeType::ChoosesBetween => "chooses",
        EdgeType::DecomposesTo => "decomposes",
        EdgeType::Produces => "produces",
    }
}

pub fn export_type_labels(export_type: ExportType) -> (r: &'static str)
    ensures
        r@ == export_type_label(export_type),
{
    match export_type {
        ExportType::Madr => "MADR Markdown",
        ExportType::Yadr => "YADR YAML",
        ExportType::ImagePrompt => "Image prompt",
        ExportType::AiPlanMd => "AI task plan",
        ExportType::DesignDocMd => "MADR Markdown",
        ExportType::ConfluenceHtml => "Confluence draft",
        ExportType::Mermaid => "Mermaid diagram",
        ExportType::ArchitectureImage => "Image prompt",
    }
}

fn node_type_value(node_type: NodeType) -> (r: &'static str)
    ensures
        r@ == node_type_wire(node_type),
{
    match node_type {
        NodeType::Proposition => "proposition",
        NodeType::DecisionPoint => "decision_point",
        NodeType::Option => "option",
        NodeType::Evidence => "evidence",
        NodeType::Tradeoff => "tradeoff",
        NodeType::Blocker => "blocker",
        NodeType::Subdecision => "subdecision",
        NodeType::Task => "task",
        NodeType::Artifact => "artifact",
    }
}

fn edge_type_value(edge_type: EdgeType) -> (r: &'static str)
    ensures
        r@ == edge_type_wire(edge_type),
{
    match edge_type {
        EdgeType::DependsOn => "depends_on",
        EdgeType::Supports => "supports",
        EdgeType::Blocks => "blocks",
        EdgeType::TradesOffWith => "trades_off_with",
        EdgeType::ChoosesBetween => "chooses_between",
        EdgeType::DecomposesTo => "decomposes_to",
        EdgeType::Produces => "produces",
    }
}

fn node_status_str(status: NodeStatus) -> (r: &'static str)
    ensures
        r@ == node_status_wire(status),
{
    match status {
        NodeStatus::Draft => "draft",
        NodeStatus::Viable => "viable",
        NodeStatus::Conditional => "conditional",
        NodeStatus::Infeasible => "infeasible",
        NodeStatus::Unknown => "unknown",
        NodeStatus::Selected => "selected",
        NodeStatus::Deferred => "deferred",
        NodeStatus::Complete => "complete",
    }
}

// ---------------------------------------------------------------------------
// Text building blocks
// ---------------------------------------------------------------------------

/// `lines` joined with `sep` between consecutive items.
pub open spec fn join(lines: Seq<Seq<char>>, sep: Seq<char>) -> Seq<char>
    decreases lines.len(),
{
    if lines.len() == 0 {
        seq![]
    } else if lines.len() == 1 {
        lines[0]
    } else {
        join(lines.drop_last(), sep) + sep + lines.last()
    }
}

/// `value` unless it is empty, else `fallback`.
pub open spec fn or_else(value: Seq<char>, fallback: Seq<char>) -> Seq<char> {
    if value.len() == 0 {
        fallback
    } else {
        value
    }
}

/// Appends `sep` and then `line`, unless `s` is empty, when only `line`.
fn append_line(s: &mut String, first: bool, sep: &str, line: &str)
    ensures
        final(s)@ == if first {
            old(s)@ + line@
        } else {
            old(s)@ + sep@ + line@
        },
{
    if !first {
        push_str(s, sep);
    }
    push_str(s, line);
}

// ---------------------------------------------------------------------------
// Selection key
// ---------------------------------------------------------------------------

pub open spec fn selection_key(selection: SceneSelection) -> Seq<char> {
    match selection {
        SceneSelection::Canvas => "canvas"@,
        SceneSelection::Multi { ids } => "multi:"@ + join(strs(ids@), ","@),
        SceneSelection::Group { id } => "group:"@ + id@,
        SceneSelection::Node { id } => "node:"@ + id@,
        SceneSelection::Edge { id } => "edge:"@ + id@,
    }
}

/// Appends `lines` joined by `sep`.
fn push_joined(s: &mut String, lines: &Vec<String>, sep: &str)
    ensures
        final(s)@ == old(s)@ + join(strs(lines@), sep@),
{
    let ghost start = s@;
    let mut i: usize = 0;
    while i < lines.len()
        invariant
            i <= lines@.len(),
            s@ == start + join(strs(lines@).subrange(0, i as int), sep@),
        decreases lines@.len() - i,
    {
        let ghost before = s@;
        append_line(s, i == 0, sep, lines[i].as_str());
        proof {
            let ls = strs(lines@).subrange(0, i + 1);
            assert(ls.drop_last() =~= strs(lines@).subrange(0, i as int));
            if i == 0 {
                assert(join(strs(lines@).subrange(0, 0), sep@) =~= Seq::<char>::empty());
                assert(s@ =~= start + join(ls, sep@));
            } else {
                assert(s@ =~= start + join(ls, sep@));
            }
        }
        i = i + 1;
    }
    proof {
        assert(strs(lines@).subrange(0, lines@.len() as int) =~= strs(lines@));
    }
}

/// A stable string key for a selection.
pub fn selection_target(selection: &SceneSelection) -> (r: String)
    ensures
        r@ == selection_key(*selection),
{
    match selection {
        SceneSelection::Canvas => "canvas".to_owned(),
        SceneSelection::Multi { ids } => {
            let mut s = "multi:".to_owned();
            push_joined(&mut s, ids, ",");
            s
        },
        SceneSelection::Group { id } => {
            let mut s = "group:".to_owned();
            push_str(&mut s, id.as_str());
            s
        },
        SceneSelection::Node { id } => {
            let mut s = "node:".to_owned();
            push_str(&mut s, id.as_str());
            s
        },
        SceneSelection::Edge { id } => {
            let mut s = "edge:".to_owned();
            push_str(&mut s, id.as_str());
            s
        },
    }
}


// ---------------------------------------------------------------------------
// Filtering and insertion-ordered maps
// ---------------------------------------------------------------------------

/// The items of `s` that satisfy `p`, in order.
pub open spec fn keep<A>(s: Seq<A>, p: spec_fn(A) -> bool) -> Seq<A>
    decreases s.len(),
{
    if s.len() == 0 {
        seq![]
    } else if p(s.last()) {
        keep(s.drop_last(), p).push(s.last())
    } else {
        keep(s.drop_last(), p)
    }
}

pub(crate) proof fn lemma_keep_step<A>(s: Seq<A>, i: int, p: spec_fn(A) -> bool)
    requires
        0 <= i < s.len(),
    ensures
        keep(s.subrange(0, i + 1), p) == if p(s[i]) {
            keep(s.subrange(0, i), p).push(s[i])
        } else {
            keep(s.subrange(0, i), p)
        },
{
    assert(s.subrange(0, i + 1).drop_last() =~= s.subrange(0, i));
}

pub(crate) proof fn lemma_keep_none<A>(s: Seq<A>, p: spec_fn(A) -> bool)
    requires
        forall|i: int| 0 <= i < s.len() ==> !p(#[trigger] s[i]),
    ensures
        keep(s, p).len() == 0,
    decreases s.len(),
{
    if s.len() > 0 {
        assert(!p(s[s.len() - 1]));
        assert forall|i: int| 0 <= i < s.drop_last().len() implies !p(#[trigger] s.drop_last()[i]) by {
            assert(s.drop_last()[i] == s[i]);
        }
        lemma_keep_none(s.drop_last(), p);
    }
}

/// A record with a string key.
pub trait Keyed: Sized + View {
    spec fn key_of(v: Self::V) -> Seq<char>;

    fn key(&self) -> (r: &String)
        ensures
            r@ == Self::key_of(self@),
    ;

    fn duplicate(&self) -> (r: Self)
        ensures
            r@ == self@,
    ;
}

impl Keyed for GraphNode {
    open spec fn key_of(v: GraphNodeView) -> Seq<char> {
        v.id
    }

    fn key(&self) -> (r: &String) {
        &self.id
    }

    fn duplicate(&self) -> (r: Self) {
        self.copy_of()
    }
}

impl Keyed for GraphEdge {
    open spec fn key_of(v: GraphEdgeView) -> Seq<char> {
        v.id
    }

    fn key(&self) -> (r: &String) {
        &self.id
    }

    fn duplicate(&self) -> (r: Self) {
        self.copy_of()
    }
}

pub open spec fn views<T: View>(s: Seq<T>) -> Seq<T::V> {
    s.map_values(|t: T| t@)
}

/// `i` is the first position whose key is `k`.
pub open spec fn first_key<T: Keyed>(s: Seq<T::V>, k: Seq<char>, i: int) -> bool {
    &&& 0 <= i < s.len()
    &&& T::key_of(s[i]) == k
    &&& forall|j: int| 0 <= j < i ==> T::key_of(s[j]) != k
}

/// Ordered-map `set`: an existing key keeps its position and takes the new
/// value; a new key is appended.
pub open spec fn om_set<T: Keyed>(s: Seq<T::V>, v: T::V) -> Seq<T::V> {
    if exists|i: int| first_key::<T>(s, T::key_of(v), i) {
        s.update(choose|i: int| first_key::<T>(s, T::key_of(v), i), v)
    } else {
        s.push(v)
    }
}

/// Ordered-map `delete`: drops the entries of key `k`.
pub open spec fn om_delete<T: Keyed>(s: Seq<T::V>, k: Seq<char>) -> Seq<T::V> {
    keep(s, |v: T::V| T::key_of(v) != k)
}

/// `set` of each of `vs` in turn.
pub open spec fn om_set_all<T: Keyed>(s: Seq<T::V>, vs: Seq<T::V>) -> Seq<T::V>
    decreases vs.len(),
{
    if vs.len() == 0 {
        s
    } else {
        om_set::<T>(om_set_all::<T>(s, vs.drop_last()), vs.last())
    }
}

/// `delete` of each of `ks` in turn.
pub open spec fn om_delete_all<T: Keyed>(s: Seq<T::V>, ks: Seq<Seq<char>>) -> Seq<T::V>
    decreases ks.len(),
{
    if ks.len() == 0 {
        s
    } else {
        om_delete::<T>(om_delete_all::<T>(s, ks.drop_last()), ks.last())
    }
}

/// Keeps the entries of `s` that `p` accepts.
pub(crate) fn keep_where<T: Keyed>(s: Vec<T>, Ghost(p): Ghost<spec_fn(T::V) -> bool>, f: impl Fn(&T) -> bool) -> (r: Vec<T>)
    requires
        forall|t: &T| #[trigger] f.requires((t,)),
        forall|t: &T, b: bool| f.ensures((t,), b) ==> b == p(t@),
    ensures
        views(r@) == keep(views(s@), p),
{
    let mut r: Vec<T> = Vec::new();
    let mut i: usize = 0;
    while i < s.len()
        invariant
            i <= s@.len(),
            forall|t: &T| #[trigger] f.requires((t,)),
            forall|t: &T, b: bool| f.ensures((t,), b) ==> b == p(t@),
            views(r@) == keep(views(s@).subrange(0, i as int), p),
        decreases s@.len() - i,
    {
        proof {
            lemma_keep_step(views(s@), i as int, p);
            assert(views(s@)[i as int] == s@[i as int]@);
        }
        if f(&s[i]) {
            let c = s[i].duplicate();
            let ghost before = r@;
            r.push(c);
            proof {
                assert(views(r@) =~= views(before).push(c@));
            }
        }
        i = i + 1;
    }
    proof {
        assert(views(s@).subrange(0, s@.len() as int) =~= views(s@));
    }
    r
}

/// Ordered-map `set` on a vector.
pub(crate) fn om_set_in<T: Keyed>(s: &mut Vec<T>, v: T)
    ensures
        views(final(s)@) == om_set::<T>(views(old(s)@), v@),
{
    let ghost k = T::key_of(v@);
    let mut i: usize = 0;
    while i < s.len()
        invariant
            i <= s@.len(),
            s@ == old(s)@,
            k == T::key_of(v@),
            forall|j: int| 0 <= j < i ==> T::key_of(views(s@)[j]) != k,
        decreases s@.len() - i,
    {
        if str_eq(s[i].key().as_str(), v.key().as_str()) {
            proof {
                assert(views(s@)[i as int] == s@[i as int]@);
                assert(first_key::<T>(views(s@), k, i as int));
                let c = choose|c: int| first_key::<T>(views(s@), k, c);
                assert(c == i);
            }
            let ghost vv = v@;
            s.set(i, v);
            proof {
                assert(views(s@) =~= views(old(s)@).update(i as int, vv));
            }
            return;
        }
        proof {
            assert(views(s@)[i as int] == s@[i as int]@);
        }
        i = i + 1;
    }
    let ghost vv = v@;
    s.push(v);
    proof {
        assert(!exists|c: int| first_key::<T>(views(old(s)@), k, c));
        assert(views(s@) =~= views(old(s)@).push(vv));
    }
}


/// `set` of each of `vs` in turn, on a vector.
pub(crate) fn om_set_all_in<T: Keyed>(s: &mut Vec<T>, vs: &Vec<T>)
    ensures
        views(final(s)@) == om_set_all::<T>(views(old(s)@), views(vs@)),
{
    let mut i: usize = 0;
    while i < vs.len()
        invariant
            i <= vs@.len(),
            views(s@) == om_set_all::<T>(views(old(s)@), views(vs@).subrange(0, i as int)),
        decreases vs@.len() - i,
    {
        let c = vs[i].duplicate();
        om_set_in(s, c);
        proof {
            let t = views(vs@).subrange(0, i + 1);
            assert(t.drop_last() =~= views(vs@).subrange(0, i as int));
            assert(t.last() == vs@[i as int]@);
        }
        i = i + 1;
    }
    proof {
        assert(views(vs@).subrange(0, vs@.len() as int) =~= views(vs@));
    }
}

/// Ordered-map `delete` on a vector.
pub(crate) fn om_delete_in<T: Keyed>(s: Vec<T>, k: &str) -> (r: Vec<T>)
    ensures
        views(r@) == om_delete::<T>(views(s@), k@),
{
    let f = |t: &T| -> (b: bool)
        ensures
            b == (T::key_of(t@) != k@),
        { !str_eq(t.key().as_str(), k) };
    keep_where(s, Ghost(|v: T::V| T::key_of(v) != k@), f)
}

// ---------------------------------------------------------------------------
// Patch application
// ---------------------------------------------------------------------------

/// A batch of decision-graph edits.
#[derive(Clone, Debug, PartialEq)]
pub struct GraphPatch {
    pub add_nodes: Vec<GraphNode>,
    pub update_nodes: Vec<GraphNode>,
    pub remove_node_ids: Vec<String>,
    pub add_edges: Vec<GraphEdge>,
    pub update_edges: Vec<GraphEdge>,
    pub remove_edge_ids: Vec<String>,
}

pub struct GraphPatchView {
    pub add_nodes: Seq<GraphNodeView>,
    pub update_nodes: Seq<GraphNodeView>,
    pub remove_node_ids: Seq<Seq<char>>,
    pub add_edges: Seq<GraphEdgeView>,
    pub update_edges: Seq<GraphEdgeView>,
    pub remove_edge_ids: Seq<Seq<char>>,
}

impl View for GraphPatch {
    type V = GraphPatchView;

    open spec fn view(&self) -> GraphPatchView {
        GraphPatchView {
            add_nodes: node_views(self.add_nodes@),
            update_nodes: node_views(self.update_nodes@),
            remove_node_ids: strs(self.remove_node_ids@),
            add_edges: edge_views(self.add_edges@),
            update_edges: edge_views(self.update_edges@),
            remove_edge_ids: strs(self.remove_edge_ids@),
        }
    }
}

impl Default for GraphPatch {
    fn default() -> (r: Self)
        ensures
            r@.add_nodes.len() == 0,
            r@.update_nodes.len() == 0,
            r@.remove_node_ids.len() == 0,
            r@.add_edges.len() == 0,
            r@.update_edges.len() == 0,
            r@.remove_edge_ids.len() == 0,
    {
        GraphPatch {
            add_nodes: Vec::new(),
            update_nodes: Vec::new(),
            remove_node_ids: Vec::new(),
            add_edges: Vec::new(),
            update_edges: Vec::new(),
            remove_edge_ids: Vec::new(),
        }
    }
}

/// The edges not incident to node `id`.
pub open spec fn drop_incident(edges: Seq<GraphEdgeView>, id: Seq<char>) -> Seq<GraphEdgeView> {
    keep(edges, |e: GraphEdgeView| e.source != id && e.target != id)
}

/// Removes each node of `ids` in turn, with the edges incident to it.
pub open spec fn remove_nodes(
    nodes: Seq<GraphNodeView>,
    edges: Seq<GraphEdgeView>,
    ids: Seq<Seq<char>>,
) -> (Seq<GraphNodeView>, Seq<GraphEdgeView>)
    decreases ids.len(),
{
    if ids.len() == 0 {
        (nodes, edges)
    } else {
        let (n, e) = remove_nodes(nodes, edges, ids.drop_last());
        (om_delete::<GraphNode>(n, ids.last()), drop_incident(e, ids.last()))
    }
}

/// The ids of `nodes`.
pub open spec fn node_ids(nodes: Seq<GraphNodeView>) -> Seq<Seq<char>> {
    nodes.map_values(|n: GraphNodeView| n.id)
}

/// The edges whose two endpoints are among `nodes`.
pub open spec fn connected_edges(edges: Seq<GraphEdgeView>, nodes: Seq<GraphNodeView>) -> Seq<
    GraphEdgeView,
> {
    keep(
        edges,
        |e: GraphEdgeView| node_ids(nodes).contains(e.source) && node_ids(nodes).contains(e.target),
    )
}

/// The graph a patch yields: node removals (with their incident edges), edge
/// removals, node adds then updates, edge adds then updates, all with
/// insertion-ordered map semantics; finally edges with a missing endpoint are
/// dropped. The result's version is 1.
pub open spec fn patched_graph(g: DecisionGraphView, p: GraphPatchView) -> DecisionGraphView {
    let n0 = om_set_all::<GraphNode>(seq![], g.nodes);
    let e0 = om_set_all::<GraphEdge>(seq![], g.edges);
    let (n1, e1) = remove_nodes(n0, e0, p.remove_node_ids);
    let e2 = om_delete_all::<GraphEdge>(e1, p.remove_edge_ids);
    let n3 = om_set_all::<GraphNode>(om_set_all::<GraphNode>(n1, p.add_nodes), p.update_nodes);
    let e3 = om_set_all::<GraphEdge>(om_set_all::<GraphEdge>(e2, p.add_edges), p.update_edges);
    DecisionGraphView { version: 1, nodes: n3, edges: connected_edges(e3, n3) }
}

/// Whether node `id` is among `nodes`.
fn has_node(nodes: &Vec<GraphNode>, id: &str) -> (r: bool)
    ensures
        r == node_ids(node_views(nodes@)).contains(id@),
{
    let mut i: usize = 0;
    while i < nodes.len()
        invariant
            i <= nodes@.len(),
            forall|j: int| 0 <= j < i ==> node_ids(node_views(nodes@))[j] != id@,
        decreases nodes@.len() - i,
    {
        if str_eq(nodes[i].id.as_str(), id) {
            proof {
                assert(node_ids(node_views(nodes@))[i as int] == id@);
            }
            return true;
        }
        i = i + 1;
    }
    false
}

/// Applies, in order: cascading node removal, edge removal, node add/update,
/// edge add/update; then prunes every edge whose endpoints no longer exist.
/// The result's version is always 1.
pub fn apply_graph_patch(graph: &DecisionGraph, patch: &GraphPatch) -> (r: DecisionGraph)
    ensures
        r@ == patched_graph(graph@, patch@),
{
    let mut nodes: Vec<GraphNode> = Vec::new();
    om_set_all_in(&mut nodes, &graph.nodes);
    let mut edges: Vec<GraphEdge> = Vec::new();
    om_set_all_in(&mut edges, &graph.edges);
    proof {
        assert(views(Seq::<GraphNode>::empty()) =~= Seq::<GraphNodeView>::empty());
        assert(views(Seq::<GraphEdge>::empty()) =~= Seq::<GraphEdgeView>::empty());
        assert(views(graph.nodes@) =~= node_views(graph.nodes@));
        assert(views(graph.edges@) =~= edge_views(graph.edges@));
    }
    let ghost n0 = views(nodes@);
    let ghost e0 = views(edges@);
    let ids = &patch.remove_node_ids;
    let mut i: usize = 0;
    while i < ids.len()
        invariant
            i <= ids@.len(),
            (views(nodes@), views(edges@)) == remove_nodes(n0, e0, strs(ids@).subrange(0, i as int)),
        decreases ids@.len() - i,
    {
        let id = ids[i].as_str();
        nodes = om_delete_in(nodes, id);
        let f = |e: &GraphEdge| -> (b: bool)
            ensures
                b == (e@.source != id@ && e@.target != id@),
            { !str_eq(e.source.as_str(), id) && !str_eq(e.target.as_str(), id) };
        edges = keep_where(edges, Ghost(|e: GraphEdgeView| e.source != id@ && e.target != id@), f);
        proof {
            let t = strs(ids@).subrange(0, i + 1);
            assert(t.drop_last() =~= strs(ids@).subrange(0, i as int));
        }
        i = i + 1;
    }
    proof {
        assert(strs(ids@).subrange(0, ids@.len() as int) =~= strs(ids@));
    }
    let ghost e1 = views(edges@);
    let rids = &patch.remove_edge_ids;
    let mut j: usize = 0;
    while j < rids.len()
        invariant
            j <= rids@.len(),
            views(edges@) == om_delete_all::<GraphEdge>(e1, strs(rids@).subrange(0, j as int)),
        decreases rids@.len() - j,
    {
        edges = om_delete_in(edges, rids[j].as_str());
        proof {
            let t = strs(rids@).subrange(0, j + 1);
            assert(t.drop_last() =~= strs(rids@).subrange(0, j as int));
        }
        j = j + 1;
    }
    proof {
        assert(strs(rids@).subrange(0, rids@.len() as int) =~= strs(rids@));
    }
    om_set_all_in(&mut nodes, &patch.add_nodes);
    om_set_all_in(&mut nodes, &patch.update_nodes);
    om_set_all_in(&mut edges, &patch.add_edges);
    om_set_all_in(&mut edges, &patch.update_edges);
    proof {
        assert(views(patch.add_nodes@) =~= node_views(patch.add_nodes@));
        assert(views(patch.update_nodes@) =~= node_views(patch.update_nodes@));
        assert(views(patch.add_edges@) =~= edge_views(patch.add_edges@));
        assert(views(patch.update_edges@) =~= edge_views(patch.update_edges@));
    }
    let ghost n3 = node_views(nodes@);
    let kept_nodes = &nodes;
    let f = |e: &GraphEdge| -> (b: bool)
        ensures
            b == (node_ids(node_views(kept_nodes@)).contains(e@.source) && node_ids(
                node_views(kept_nodes@),
            ).contains(e@.target)),
        { has_node(kept_nodes, e.source.as_str()) && has_node(kept_nodes, e.target.as_str()) };
    let edges = keep_where(
        edges,
        Ghost(|e: GraphEdgeView| node_ids(n3).contains(e.source) && node_ids(n3).contains(e.target)),
        f,
    );
    proof {
        assert(views(nodes@) =~= node_views(nodes@));
        assert(views(edges@) =~= edge_views(edges@));
    }
    DecisionGraph { version: 1, nodes, edges }
}


// ---------------------------------------------------------------------------
// Mermaid and the text digest
// ---------------------------------------------------------------------------

/// A Mermaid identifier character: ASCII letters, digits and `_` stay, every
/// other character becomes `_`.
pub open spec fn mermaid_id_char(c: char) -> char {
    if ('a' <= c && c <= 'z') || ('A' <= c && c <= 'Z') || ('0' <= c && c <= '9') || c == '_' {
        c
    } else {
        '_'
    }
}

pub open spec fn safe_mermaid(id: Seq<char>) -> Seq<char> {
    id.map_values(|c: char| mermaid_id_char(c))
}

/// Double quotes become single quotes.
pub open spec fn escape_quotes(s: Seq<char>) -> Seq<char> {
    s.map_values(|c: char| if c == '"' { '\'' } else { c })
}

pub open spec fn mermaid_node_line(n: GraphNodeView) -> Seq<char> {
    "  "@ + safe_mermaid(n.id) + "[\""@ + escape_quotes(node_type_label(n.node_type) + ": "@ + n.title)
        + "\"]"@
}

pub open spec fn mermaid_edge_line(e: GraphEdgeView) -> Seq<char> {
    "  "@ + safe_mermaid(e.source) + " -->|\""@ + escape_quotes(
        or_else(e.label, edge_type_label(e.edge_type)),
    ) + "\"| "@ + safe_mermaid(e.target)
}

/// The Mermaid flowchart of a graph: a header line, one line per node, one
/// line per edge.
pub open spec fn mermaid_text(g: DecisionGraphView) -> Seq<char> {
    join(
        seq!["flowchart LR"@] + g.nodes.map_values(|n: GraphNodeView| mermaid_node_line(n))
            + g.edges.map_values(|e: GraphEdgeView| mermaid_edge_line(e)),
        "\n"@,
    )
}

fn mermaid_id_char_of(c: char) -> (r: char)
    ensures
        r == mermaid_id_char(c),
{
    if ('a' <= c && c <= 'z') || ('A' <= c && c <= 'Z') || ('0' <= c && c <= '9') || c == '_' {
        c
    } else {
        '_'
    }
}

fn safe_mermaid_id(id: &str) -> (r: String)
    ensures
        r@ == safe_mermaid(id@),
{
    let n = id.unicode_len();
    let mut r = String::new();
    let mut i: usize = 0;
    while i < n
        invariant
            n == id@.len(),
            i <= n,
            r@ == safe_mermaid(id@.subrange(0, i as int)),
        decreases n - i,
    {
        let c = id.get_char(i);
        push_char(&mut r, mermaid_id_char_of(c));
        proof {
            assert(safe_mermaid(id@.subrange(0, i + 1)) =~= safe_mermaid(id@.subrange(0, i as int)).push(
                mermaid_id_char(c),
            ));
        }
        i = i + 1;
    }
    proof {
        assert(id@.subrange(0, n as int) =~= id@);
    }
    r
}

fn escape_mermaid(value: &str) -> (r: String)
    ensures
        r@ == escape_quotes(value@),
{
    let n = value.unicode_len();
    let mut r = String::new();
    let mut i: usize = 0;
    while i < n
        invariant
            n == value@.len(),
            i <= n,
            r@ == escape_quotes(value@.subrange(0, i as int)),
        decreases n - i,
    {
        let c = value.get_char(i);
        let d = if c == '"' { '\'' } else { c };
        push_char(&mut r, d);
        proof {
            assert(escape_quotes(value@.subrange(0, i + 1)) =~= escape_quotes(value@.subrange(0, i as int)).push(d));
        }
        i = i + 1;
    }
    proof {
        assert(value@.subrange(0, n as int) =~= value@);
    }
    r
}

fn or_else_str<'a>(value: &'a str, fallback: &'a str) -> (r: &'a str)
    ensures
        r@ == or_else(value@, fallback@),
{
    if value.unicode_len() == 0 {
        fallback
    } else {
        value
    }
}

fn mermaid_node(n: &GraphNode) -> (r: String)
    ensures
        r@ == mermaid_node_line(n@),
{
    let mut label = node_type_labels(n.node_type).to_owned();
    push_str(&mut label, ": ");
    push_str(&mut label, n.title.as_str());
    let mut s = "  ".to_owned();
    push_str(&mut s, safe_mermaid_id(n.id.as_str()).as_str());
    push_str(&mut s, "[\"");
    push_str(&mut s, escape_mermaid(label.as_str()).as_str());
    push_str(&mut s, "\"]");
    s
}

fn mermaid_edge(e: &GraphEdge) -> (r: String)
    ensures
        r@ == mermaid_edge_line(e@),
{
    let label = or_else_str(e.label.as_str(), edge_type_labels(e.edge_type));
    let mut s = "  ".to_owned();
    push_str(&mut s, safe_mermaid_id(e.source.as_str()).as_str());
    push_str(&mut s, " -->|\"");
    push_str(&mut s, escape_mermaid(label).as_str());
    push_str(&mut s, "\"| ");
    push_str(&mut s, safe_mermaid_id(e.target.as_str()).as_str());
    s
}

/// The graph as a Mermaid left-to-right flowchart.
pub fn make_mermaid(graph: &DecisionGraph) -> (r: String)
    ensures
        r@ == mermaid_text(graph@),
{
    let mut lines: Vec<String> = Vec::new();
    lines.push("flowchart LR".to_owned());
    let ghost head = seq!["flowchart LR"@];
    let ghost nl = graph@.nodes.map_values(|n: GraphNodeView| mermaid_node_line(n));
    let ghost el = graph@.edges.map_values(|e: GraphEdgeView| mermaid_edge_line(e));
    proof {
        assert(strs(lines@) =~= head);
    }
    let mut i: usize = 0;
    while i < graph.nodes.len()
        invariant
            i <= graph.nodes@.len(),
            nl == graph@.nodes.map_values(|n: GraphNodeView| mermaid_node_line(n)),
            strs(lines@) == head + nl.subrange(0, i as int),
        decreases graph.nodes@.len() - i,
    {
        let line = mermaid_node(&graph.nodes[i]);
        let ghost before = lines@;
        let ghost lv = line@;
        lines.push(line);
        proof {
            assert(graph@.nodes[i as int] == graph.nodes@[i as int]@);
            assert(nl[i as int] == lv);
            assert(strs(lines@) =~= strs(before).push(lv));
            assert(strs(lines@) =~= head + nl.subrange(0, i + 1));
        }
        i = i + 1;
    }
    let mut k: usize = 0;
    while k < graph.edges.len()
        invariant
            k <= graph.edges@.len(),
            nl == graph@.nodes.map_values(|n: GraphNodeView| mermaid_node_line(n)),
            el == graph@.edges.map_values(|e: GraphEdgeView| mermaid_edge_line(e)),
            strs(lines@) == head + nl + el.subrange(0, k as int),
        decreases graph.edges@.len() - k,
    {
        let line = mermaid_edge(&graph.edges[k]);
        let ghost before = lines@;
        let ghost lv = line@;
        lines.push(line);
        proof {
            assert(graph@.edges[k as int] == graph.edges@[k as int]@);
            assert(el[k as int] == lv);
            assert(strs(lines@) =~= strs(before).push(lv));
            assert(strs(lines@) =~= head + nl + el.subrange(0, k + 1));
        }
        k = k + 1;
        proof {
            if k == 1 {
                assert(nl.subrange(0, graph.nodes@.len() as int) =~= nl);
            }
        }
    }
    proof {
        assert(nl.subrange(0, graph.nodes@.len() as int) =~= nl);
        assert(el.subrange(0, graph.edges@.len() as int) =~= el);
        assert(head + nl + Seq::<Seq<char>>::empty() =~= head + nl);
    }
    let mut out = String::new();
    push_joined(&mut out, &lines, "\n");
    proof {
        assert(Seq::<char>::empty() + join(strs(lines@), "\n"@) =~= join(strs(lines@), "\n"@));
    }
    out
}


pub open spec fn digest_node_line(n: GraphNodeView, pct: int) -> Seq<char> {
    "- ["@ + node_type_wire(n.node_type) + "/"@ + node_status_wire(n.status) + "/"@ + decimal(pct)
        + "%] "@ + n.id + ": "@ + n.title + " \u{2014} "@ + n.summary
}

pub open spec fn digest_edge_line(e: GraphEdgeView, pct: int) -> Seq<char> {
    "- ["@ + edge_type_wire(e.edge_type) + "/"@ + decimal(pct) + "%] "@ + e.source + " -> "@
        + e.target + ": "@ + or_else(e.label, e.rationale)
}

/// A block of lines, or the `- none` placeholder when there are none.
pub open spec fn block(lines: Seq<Seq<char>>) -> Seq<char> {
    if lines.len() == 0 {
        "- none"@
    } else {
        join(lines, "\n"@)
    }
}

/// The text digest of a graph, given each node's and each edge's confidence
/// as a rounded percentage.
pub open spec fn digest_text(g: DecisionGraphView, node_pcts: Seq<i64>, edge_pcts: Seq<i64>) -> Seq<
    char,
> {
    "Nodes:\n"@ + block(
        Seq::new(g.nodes.len(), |i: int| digest_node_line(g.nodes[i], node_pcts[i] as int)),
    ) + "\n\nEdges:\n"@ + block(
        Seq::new(g.edges.len(), |i: int| digest_edge_line(g.edges[i], edge_pcts[i] as int)),
    )
}

fn digest_node(n: &GraphNode, pct: i64) -> (r: String)
    ensures
        r@ == digest_node_line(n@, pct as int),
{
    let mut s = "- [".to_owned();
    push_str(&mut s, node_type_value(n.node_type));
    push_str(&mut s, "/");
    push_str(&mut s, node_status_str(n.status));
    push_str(&mut s, "/");
    push_decimal(&mut s, pct);
    push_str(&mut s, "%] ");
    push_str(&mut s, n.id.as_str());
    push_str(&mut s, ": ");
    push_str(&mut s, n.title.as_str());
    push_str(&mut s, " \u{2014} ");
    push_str(&mut s, n.summary.as_str());
    s
}

fn digest_edge(e: &GraphEdge, pct: i64) -> (r: String)
    ensures
        r@ == digest_edge_line(e@, pct as int),
{
    let mut s = "- [".to_owned();
    push_str(&mut s, edge_type_value(e.edge_type));
    push_str(&mut s, "/");
    push_decimal(&mut s, pct);
    push_str(&mut s, "%] ");
    push_str(&mut s, e.source.as_str());
    push_str(&mut s, " -> ");
    push_str(&mut s, e.target.as_str());
    push_str(&mut s, ": ");
    push_str(&mut s, or_else_str(e.label.as_str(), e.rationale.as_str()));
    s
}

/// Appends a block of lines (or `- none`).
fn push_block(s: &mut String, lines: &Vec<String>)
    ensures
        final(s)@ == old(s)@ + block(strs(lines@)),
{
    if lines.len() == 0 {
        push_str(s, "- none");
    } else {
        push_joined(s, lines, "\n");
    }
}

/// The plain-text digest of a graph: a `Nodes:` block and an `Edges:` block.
///
/// Confidences are real numbers; the caller passes each node's and each
/// edge's confidence already rounded to a whole percentage, in graph order.
pub fn graph_text_digest(graph: &DecisionGraph, node_pcts: &[i64], edge_pcts: &[i64]) -> (r: String)
    requires
        node_pcts@.len() == graph.nodes@.len(),
        edge_pcts@.len() == graph.edges@.len(),
    ensures
        r@ == digest_text(graph@, node_pcts@, edge_pcts@),
{
    let ghost nl = Seq::new(
        graph@.nodes.len(),
        |i: int| digest_node_line(graph@.nodes[i], node_pcts@[i] as int),
    );
    let ghost el = Seq::new(
        graph@.edges.len(),
        |i: int| digest_edge_line(graph@.edges[i], edge_pcts@[i] as int),
    );
    let mut nodes: Vec<String> = Vec::new();
    let mut i: usize = 0;
    while i < graph.nodes.len()
        invariant
            i <= graph.nodes@.len(),
            node_pcts@.len() == graph.nodes@.len(),
            nl == Seq::new(
                graph@.nodes.len(),
                |i: int| digest_node_line(graph@.nodes[i], node_pcts@[i] as int),
            ),
            strs(nodes@) == nl.subrange(0, i as int),
        decreases graph.nodes@.len() - i,
    {
        let line = digest_node(&graph.nodes[i], node_pcts[i]);
        let ghost before = nodes@;
        let ghost lv = line@;
        nodes.push(line);
        proof {
            assert(graph@.nodes[i as int] == graph.nodes@[i as int]@);
            assert(nl[i as int] == lv);
            assert(strs(nodes@) =~= strs(before).push(lv));
            assert(strs(nodes@) =~= nl.subrange(0, i + 1));
        }
        i = i + 1;
    }
    let mut edges: Vec<String> = Vec::new();
    let mut k: usize = 0;
    while k < graph.edges.len()
        invariant
            k <= graph.edges@.len(),
            edge_pcts@.len() == graph.edges@.len(),
            el == Seq::new(
                graph@.edges.len(),
                |i: int| digest_edge_line(graph@.edges[i], edge_pcts@[i] as int),
            ),
            strs(edges@) == el.subrange(0, k as int),
        decreases graph.edges@.len() - k,
    {
        let line = digest_edge(&graph.edges[k], edge_pcts[k]);
        let ghost before = edges@;
        let ghost lv = line@;
        edges.push(line);
        proof {
            assert(graph@.edges[k as int] == graph.edges@[k as int]@);
            assert(el[k as int] == lv);
            assert(strs(edges@) =~= strs(before).push(lv));
            assert(strs(edges@) =~= el.subrange(0, k + 1));
        }
        k = k + 1;
    }
    proof {
        assert(nl.subrange(0, graph.nodes@.len() as int) =~= nl);
        assert(el.subrange(0, graph.edges@.len() as int) =~= el);
    }
    let mut out = "Nodes:\n".to_owned();
    push_block(&mut out, &nodes);
    push_str(&mut out, "\n\nEdges:\n");
    push_block(&mut out, &edges);
    out
}

// ---------------------------------------------------------------------------
// Tags and group subtrees
// ---------------------------------------------------------------------------

pub open spec fn tag_views(v: Seq<Tag>) -> Seq<TagView> {
    v.map_values(|t: Tag| t@)
}

/// The last tag of `tags` with id `id`, if any.
pub open spec fn last_tag(tags: Seq<TagView>, id: Seq<char>) -> Option<TagView>
    decreases tags.len(),
{
    if tags.len() == 0 {
        None
    } else if tags.last().id == id {
        Some(tags.last())
    } else {
        last_tag(tags.drop_last(), id)
    }
}

/// Each id of `ids` resolved against `tags`, in `ids` order, dropping ids
/// without a tag.
pub open spec fn resolved_tags(ids: Seq<Seq<char>>, tags: Seq<TagView>) -> Seq<TagView>
    decreases ids.len(),
{
    if ids.len() == 0 {
        seq![]
    } else {
        let rest = resolved_tags(ids.drop_last(), tags);
        match last_tag(tags, ids.last()) {
            Some(t) => rest.push(t),
            None => rest,
        }
    }
}

fn find_tag(tags: &[Tag], id: &str) -> (r: Option<usize>)
    ensures
        match r {
            Some(j) => j < tags@.len() && last_tag(tag_views(tags@), id@) == Some(tags@[j as int]@),
            None => last_tag(tag_views(tags@), id@) is None,
        },
{
    let mut found: Option<usize> = None;
    let mut i: usize = 0;
    while i < tags.len()
        invariant
            i <= tags@.len(),
            match found {
                Some(j) => j < i && last_tag(tag_views(tags@).subrange(0, i as int), id@) == Some(
                    tags@[j as int]@,
                ),
                None => last_tag(tag_views(tags@).subrange(0, i as int), id@) is None,
            },
        decreases tags@.len() - i,
    {
        proof {
            let t = tag_views(tags@).subrange(0, i + 1);
            assert(t.drop_last() =~= tag_views(tags@).subrange(0, i as int));
            assert(t.last() == tags@[i as int]@);
        }
        if str_eq(tags[i].id.as_str(), id) {
            found = Some(i);
        }
        i = i + 1;
    }
    proof {
        assert(tag_views(tags@).subrange(0, tags@.len() as int) =~= tag_views(tags@));
    }
    found
}

/// A group's `tag_ids` resolved against the tag table, in `tag_ids` order,
/// dropping ids with no matching tag (the last tag of an id counts).
pub fn group_tags(group: &SceneGroup, tags: &[Tag]) -> (r: Vec<Tag>)
    ensures
        tag_views(r@) == resolved_tags(strs(group.tag_ids@), tag_views(tags@)),
{
    let ids = &group.tag_ids;
    let mut out: Vec<Tag> = Vec::new();
    let mut i: usize = 0;
    while i < ids.len()
        invariant
            i <= ids@.len(),
            tag_views(out@) == resolved_tags(strs(ids@).subrange(0, i as int), tag_views(tags@)),
        decreases ids@.len() - i,
    {
        proof {
            let t = strs(ids@).subrange(0, i + 1);
            assert(t.drop_last() =~= strs(ids@).subrange(0, i as int));
            assert(t.last() == ids@[i as int]@);
        }
        match find_tag(tags, ids[i].as_str()) {
            Some(j) => {
                let c = tags[j].copy_of();
                let ghost before = out@;
                out.push(c);
                proof {
                    assert(tag_views(out@) =~= tag_views(before).push(c@));
                }
            },
            None => {},
        }
        i = i + 1;
    }
    proof {
        assert(strs(ids@).subrange(0, ids@.len() as int) =~= strs(ids@));
    }
    out
}

/// `x` reaches `root` by following at most `n` parent links.
pub open spec fn reaches_within(groups: Seq<SceneGroup>, x: Seq<char>, root: Seq<char>, n: nat) -> bool
    decreases n,
{
    x == root || (n > 0 && exists|i: int|
        0 <= i < groups.len() && #[trigger] groups[i].id@ == x && match groups[i].parent_group_id {
            Some(p) => reaches_within(groups, p@, root, (n - 1) as nat),
            None => false,
        })
}

/// `x` is `root` or a group whose parent chain reaches `root`.
pub open spec fn in_group_subtree(groups: Seq<SceneGroup>, root: Seq<char>, x: Seq<char>) -> bool {
    exists|n: nat| reaches_within(groups, x, root, n)
}

proof fn lemma_subtree_closed(groups: Seq<SceneGroup>, root: Seq<char>, r: Seq<Seq<char>>, x: Seq<char>, n: nat)
    requires
        r.contains(root),
        forall|i: int|
            0 <= i < groups.len() && (#[trigger] groups[i].parent_group_id) is Some && r.contains(
                groups[i].parent_group_id->0@,
            ) ==> r.contains(groups[i].id@),
        reaches_within(groups, x, root, n),
    ensures
        r.contains(x),
    decreases n,
{
    if x != root {
        let i = choose|i: int|
            0 <= i < groups.len() && #[trigger] groups[i].id@ == x && match groups[i].parent_group_id {
                Some(p) => reaches_within(groups, p@, root, (n - 1) as nat),
                None => false,
            };
        let p = groups[i].parent_group_id->0;
        lemma_subtree_closed(groups, root, r, p@, (n - 1) as nat);
        assert(groups[i].parent_group_id is Some);
    }
}

/// The ids of the group subtree rooted at `group_id`: `group_id` itself and
/// every group whose `parent_group_id` chain reaches it. Each id once.
pub fn descendant_group_ids(scene: &Scene, group_id: &str) -> (r: Vec<String>)
    ensures
        strs(r@).no_duplicates(),
        forall|x: Seq<char>| strs(r@).contains(x) <==> in_group_subtree(scene.groups@, group_id@, x),
{
    let groups = &scene.groups;
    let mut result: Vec<String> = Vec::new();
    result.push(group_id.to_owned());
    let ghost universe = seq![group_id@] + groups@.map_values(|g: SceneGroup| g.id@);
    proof {
        assert(strs(result@) =~= seq![group_id@]);
        assert(reaches_within(groups@, group_id@, group_id@, 0));
        assert(universe[0] == group_id@);
    }
    let mut changed = true;
    while changed
        invariant
            universe == seq![group_id@] + groups@.map_values(|g: SceneGroup| g.id@),
            strs(result@).no_duplicates(),
            strs(result@).contains(group_id@),
            forall|j: int| 0 <= j < result@.len() ==> universe.contains(#[trigger] strs(result@)[j]),
            forall|x: Seq<char>| strs(result@).contains(x) ==> in_group_subtree(groups@, group_id@, x),
            !changed ==> forall|i: int|
                0 <= i < groups@.len() && (#[trigger] groups@[i].parent_group_id) is Some
                    && strs(result@).contains(groups@[i].parent_group_id->0@) ==> strs(
                    result@,
                ).contains(groups@[i].id@),
        decreases (universe.len() + 1 - result@.len()) + (if changed { 1int } else { 0int }),
    {
        proof {
            lemma_distinct_len_bound(strs(result@), universe);
        }
        changed = false;
        let ghost start_len = result@.len();
        let mut i: usize = 0;
        while i < groups.len()
            invariant
                i <= groups@.len(),
                universe == seq![group_id@] + groups@.map_values(|g: SceneGroup| g.id@),
                strs(result@).no_duplicates(),
                strs(result@).contains(group_id@),
                forall|j: int| 0 <= j < result@.len() ==> universe.contains(#[trigger] strs(result@)[j]),
                forall|x: Seq<char>| strs(result@).contains(x) ==> in_group_subtree(groups@, group_id@, x),
                result@.len() >= start_len,
                changed <==> result@.len() > start_len,
                !changed ==> forall|k: int|
                    0 <= k < i && (#[trigger] groups@[k].parent_group_id) is Some && strs(
                        result@,
                    ).contains(groups@[k].parent_group_id->0@) ==> strs(result@).contains(groups@[k].id@),
            decreases groups@.len() - i,
        {
            let g = &groups[i];
            match &g.parent_group_id {
                Some(parent) => {
                    if contains_str(&result, parent.as_str()) && !contains_str(&result, g.id.as_str()) {
                        let ghost before = strs(result@);
                        result.push(g.id.clone());
                        changed = true;
                        proof {
                            let sr = strs(result@);
                            assert(sr =~= before.push(g.id@));
                            assert(universe[i + 1] == g.id@);
                            assert forall|j: int| 0 <= j < sr.len() implies universe.contains(#[trigger] sr[j]) by {
                                if j < before.len() {
                                    assert(sr[j] == before[j]);
                                }
                            }
                            assert forall|x: Seq<char>| sr.contains(x) implies in_group_subtree(groups@, group_id@, x) by {
                                if x != g.id@ {
                                    let w = choose|w: int| 0 <= w < sr.len() && sr[w] == x;
                                    assert(before[w] == x);
                                    assert(before.contains(x));
                                } else {
                                    assert(before.contains(parent@));
                                    assert(in_group_subtree(groups@, group_id@, parent@));
                                    let n = choose|n: nat| reaches_within(groups@, parent@, group_id@, n);
                                    assert(groups@[i as int].id@ == x);
                                    assert(groups@[i as int].parent_group_id == Some(*parent));
                                    let m: nat = n + 1;
                                    assert(reaches_within(groups@, x, group_id@, m));
                                    assert(in_group_subtree(groups@, group_id@, x));
                                }
                            }
                            let w0 = choose|w: int| 0 <= w < before.len() && before[w] == group_id@;
                            assert(sr[w0] == group_id@);
                        }
                    }
                },
                None => {},
            }
            i = i + 1;
        }
        proof {
            lemma_distinct_len_bound(strs(result@), universe);
        }
    }
    proof {
        assert forall|x: Seq<char>| in_group_subtree(groups@, group_id@, x) implies strs(result@).contains(x) by {
            let n = choose|n: nat| reaches_within(groups@, x, group_id@, n);
            lemma_subtree_closed(groups@, group_id@, strs(result@), x, n);
        }
    }
    result
}


// ---------------------------------------------------------------------------
// Projections
// ---------------------------------------------------------------------------

/// A placed card without its placement.
pub open spec fn strip_node(n: SceneNode) -> GraphNodeView {
    GraphNodeView {
        id: n.id@,
        node_type: n.node_type,
        title: n.title@,
        summary: n.summary@,
        detail: n.detail@,
        status: n.status,
        confidence: n.confidence,
        evidence_refs: strs(n.evidence_refs@),
        child_decision_ids: strs(n.child_decision_ids@),
    }
}

/// A placed edge without its placement.
pub open spec fn strip_edge(e: SceneEdge) -> GraphEdgeView {
    GraphEdgeView {
        id: e.id@,
        edge_type: e.edge_type,
        source: e.source@,
        target: e.target@,
        label: e.label@,
        rationale: e.rationale@,
        confidence: e.confidence,
    }
}

/// The cards of the group subtree rooted at `root`, without placement.
pub open spec fn subtree_nodes(scene: Scene, root: Seq<char>) -> Seq<GraphNodeView> {
    keep(scene.nodes@, |n: SceneNode| in_group_subtree(scene.groups@, root, n.group_id@)).map_values(
        |n: SceneNode| strip_node(n),
    )
}

/// The edges of the group subtree rooted at `root` whose endpoints are both
/// among its cards, without placement.
pub open spec fn subtree_edges(scene: Scene, root: Seq<char>) -> Seq<GraphEdgeView> {
    let ids = node_ids(subtree_nodes(scene, root));
    keep(
        scene.edges@,
        |e: SceneEdge|
            in_group_subtree(scene.groups@, root, e.group_id@) && ids.contains(e.source@) && ids.contains(
                e.target@,
            ),
    ).map_values(|e: SceneEdge| strip_edge(e))
}

fn strip_scene_node(n: &SceneNode) -> (r: GraphNode)
    ensures
        r@ == strip_node(*n),
{
    GraphNode {
        id: n.id.clone(),
        node_type: n.node_type,
        title: n.title.clone(),
        summary: n.summary.clone(),
        detail: n.detail.clone(),
        status: n.status,
        confidence: n.confidence,
        evidence_refs: copy_strings(&n.evidence_refs),
        child_decision_ids: copy_strings(&n.child_decision_ids),
    }
}

fn strip_scene_edge(e: &SceneEdge) -> (r: GraphEdge)
    ensures
        r@ == strip_edge(*e),
{
    GraphEdge {
        id: e.id.clone(),
        edge_type: e.edge_type,
        source: e.source.clone(),
        target: e.target.clone(),
        label: e.label.clone(),
        rationale: e.rationale.clone(),
        confidence: e.confidence,
    }
}

/// The group subtree rooted at `group_id`, projected to a placement-free
/// decision graph (version 1).
pub fn scene_graph_for_group(scene: &Scene, group_id: &str) -> (r: DecisionGraph)
    ensures
        r@ == (DecisionGraphView {
            version: 1,
            nodes: subtree_nodes(*scene, group_id@),
            edges: subtree_edges(*scene, group_id@),
        }),
{
    let group_ids = descendant_group_ids(scene, group_id);
    let ghost np = |n: SceneNode| in_group_subtree(scene.groups@, group_id@, n.group_id@);
    let mut nodes: Vec<GraphNode> = Vec::new();
    let mut i: usize = 0;
    while i < scene.nodes.len()
        invariant
            i <= scene.nodes@.len(),
            np == (|n: SceneNode| in_group_subtree(scene.groups@, group_id@, n.group_id@)),
            forall|x: Seq<char>| strs(group_ids@).contains(x) <==> in_group_subtree(scene.groups@, group_id@, x),
            node_views(nodes@) == keep(scene.nodes@.subrange(0, i as int), np).map_values(
                |n: SceneNode| strip_node(n),
            ),
        decreases scene.nodes@.len() - i,
    {
        proof {
            lemma_keep_step(scene.nodes@, i as int, np);
        }
        let n = &scene.nodes[i];
        if contains_str(&group_ids, n.group_id.as_str()) {
            let c = strip_scene_node(n);
            let ghost before = nodes@;
            nodes.push(c);
            proof {
                assert(node_views(nodes@) =~= node_views(before).push(c@));
                assert(keep(scene.nodes@.subrange(0, i + 1), np).map_values(|n: SceneNode| strip_node(n))
                    =~= keep(scene.nodes@.subrange(0, i as int), np).map_values(|n: SceneNode| strip_node(n)).push(
                    strip_node(scene.nodes@[i as int]),
                ));
            }
        }
        i = i + 1;
    }
    proof {
        assert(scene.nodes@.subrange(0, scene.nodes@.len() as int) =~= scene.nodes@);
    }
    let ghost ids = node_ids(node_views(nodes@));
    let ghost ep = |e: SceneEdge|
        in_group_subtree(scene.groups@, group_id@, e.group_id@) && ids.contains(e.source@) && ids.contains(e.target@);
    let mut edges: Vec<GraphEdge> = Vec::new();
    let mut k: usize = 0;
    while k < scene.edges.len()
        invariant
            k <= scene.edges@.len(),
            ids == node_ids(node_views(nodes@)),
            ep == (|e: SceneEdge|
                in_group_subtree(scene.groups@, group_id@, e.group_id@) && ids.contains(e.source@)
                    && ids.contains(e.target@)),
            forall|x: Seq<char>| strs(group_ids@).contains(x) <==> in_group_subtree(scene.groups@, group_id@, x),
            edge_views(edges@) == keep(scene.edges@.subrange(0, k as int), ep).map_values(
                |e: SceneEdge| strip_edge(e),
            ),
        decreases scene.edges@.len() - k,
    {
        proof {
            lemma_keep_step(scene.edges@, k as int, ep);
        }
        let e = &scene.edges[k];
        if contains_str(&group_ids, e.group_id.as_str()) && has_node(&nodes, e.source.as_str())
            && has_node(&nodes, e.target.as_str()) {
            let c = strip_scene_edge(e);
            let ghost before = edges@;
            edges.push(c);
            proof {
                assert(edge_views(edges@) =~= edge_views(before).push(c@));
                assert(keep(scene.edges@.subrange(0, k + 1), ep).map_values(|e: SceneEdge| strip_edge(e))
                    =~= keep(scene.edges@.subrange(0, k as int), ep).map_values(|e: SceneEdge| strip_edge(e)).push(
                    strip_edge(scene.edges@[k as int]),
                ));
            }
        }
        k = k + 1;
    }
    proof {
        assert(scene.edges@.subrange(0, scene.edges@.len() as int) =~= scene.edges@);
    }
    DecisionGraph { version: 1, nodes, edges }
}

/// `x` is `id` or the other end of an edge incident to `id`.
pub open spec fn in_neighbourhood(g: DecisionGraphView, id: Seq<char>, x: Seq<char>) -> bool {
    x == id || exists|k: int|
        0 <= k < g.edges.len() && ((#[trigger] g.edges[k].source == id && g.edges[k].target == x) || (
        g.edges[k].target == id && g.edges[k].source == x))
}

/// The nodes in `nodes_in`, and the edges with both endpoints in `nodes_in`
/// (and, when `edge_id` is given, that id); version 1.
pub open spec fn pick(g: DecisionGraphView, nodes_in: Set<Seq<char>>, edge_id: Option<Seq<char>>) -> DecisionGraphView {
    DecisionGraphView {
        version: 1,
        nodes: keep(g.nodes, |n: GraphNodeView| nodes_in.contains(n.id)),
        edges: keep(
            g.edges,
            |e: GraphEdgeView|
                nodes_in.contains(e.source) && nodes_in.contains(e.target) && match edge_id {
                    Some(id) => e.id == id,
                    None => true,
                },
        ),
    }
}

/// The part of a graph a scope selects: the whole graph for a missing id or a
/// `group`/`selection` scope (and any other kind); for `node`, its one-hop
/// neighbourhood; for `edge`, that edge and its two endpoints (an empty graph
/// when no edge has the id).
pub open spec fn scoped_subgraph(g: DecisionGraphView, kind: Seq<char>, id: Option<Seq<char>>) -> DecisionGraphView {
    match id {
        None => g,
        Some(id) => if kind == "group"@ || kind == "selection"@ {
            g
        } else if kind == "node"@ {
            pick(g, Set::new(|x: Seq<char>| in_neighbourhood(g, id, x)), None)
        } else if kind == "edge"@ {
            if exists|k: int| first_key::<GraphEdge>(g.edges, id, k) {
                let k = choose|k: int| first_key::<GraphEdge>(g.edges, id, k);
                pick(g, set![g.edges[k].source, g.edges[k].target], Some(id))
            } else {
                DecisionGraphView { version: 1, nodes: seq![], edges: seq![] }
            }
        } else {
            g
        },
    }
}

/// The part of `graph` that `pick` selects, for the node set that
/// `node_ids_kept` lists.
fn pick_subgraph(
    graph: &DecisionGraph,
    node_ids_kept: &Vec<String>,
    edge_id: Option<&str>,
    Ghost(nodes_in): Ghost<Set<Seq<char>>>,
) -> (r: DecisionGraph)
    requires
        forall|x: Seq<char>| strs(node_ids_kept@).contains(x) == nodes_in.contains(x),
    ensures
        r@ == pick(graph@, nodes_in, match edge_id {
            Some(id) => Some(id@),
            None => None,
        }),
{
    let ghost eid = match edge_id {
        Some(id) => Some(id@),
        None => None,
    };
    let nf = |n: &GraphNode| -> (b: bool)
        ensures
            b == strs(node_ids_kept@).contains(n@.id),
        { contains_str(node_ids_kept, n.id.as_str()) };
    let nodes = keep_where(
        copy_nodes(&graph.nodes),
        Ghost(|n: GraphNodeView| nodes_in.contains(n.id)),
        nf,
    );
    let ef = |e: &GraphEdge| -> (b: bool)
        ensures
            b == (strs(node_ids_kept@).contains(e@.source) && strs(node_ids_kept@).contains(e@.target)
                && match edge_id {
                Some(id) => e@.id == id@,
                None => true,
            }),
        {
            contains_str(node_ids_kept, e.source.as_str()) && contains_str(node_ids_kept, e.target.as_str())
                && match edge_id {
                Some(id) => str_eq(e.id.as_str(), id),
                None => true,
            }
        };
    let edges = keep_where(
        copy_edges(&graph.edges),
        Ghost(
            |e: GraphEdgeView|
                nodes_in.contains(e.source) && nodes_in.contains(e.target) && match eid {
                    Some(id) => e.id == id,
                    None => true,
                },
        ),
        ef,
    );
    proof {
        assert(views(graph.nodes@) =~= node_views(graph.nodes@));
        assert(views(graph.edges@) =~= edge_views(graph.edges@));
        assert(views(nodes@) =~= node_views(nodes@));
        assert(views(edges@) =~= edge_views(edges@));
    }
    DecisionGraph { version: 1, nodes, edges }
}

/// The scope's part of the graph: the whole graph for `group`/`selection`
/// scopes or a missing id; a node's one-hop neighbourhood; an edge with its
/// two endpoints.
pub fn selected_subgraph(graph: &DecisionGraph, scope_kind: &str, scope_id: Option<&str>) -> (r: DecisionGraph)
    ensures
        r@ == scoped_subgraph(graph@, scope_kind@, match scope_id {
            Some(id) => Some(id@),
            None => None,
        }),
{
    let sid = match scope_id {
        Some(id) => id,
        None => return graph.copy_of(),
    };
    if str_eq(scope_kind, "group") || str_eq(scope_kind, "selection") {
        return graph.copy_of();
    }
    if str_eq(scope_kind, "node") {
        let mut ids: Vec<String> = Vec::new();
        ids.push(sid.to_owned());
        proof {
            assert(strs(ids@) =~= seq![sid@]);
            assert forall|x: Seq<char>| strs(ids@).contains(x) <==> x == sid@ by {
                if x == sid@ {
                    assert(strs(ids@)[0] == x);
                }
            }
        }
        let mut k: usize = 0;
        while k < graph.edges.len()
            invariant
                k <= graph.edges@.len(),
                forall|x: Seq<char>|
                    strs(ids@).contains(x) <==> (x == sid@ || exists|j: int|
                        0 <= j < k && ((#[trigger] graph@.edges[j].source == sid@ && graph@.edges[j].target
                            == x) || (graph@.edges[j].target == sid@ && graph@.edges[j].source == x))),
            decreases graph.edges@.len() - k,
        {
            let e = &graph.edges[k];
            let ghost before = strs(ids@);
            proof {
                assert(graph@.edges[k as int] == e@);
            }
            if str_eq(e.source.as_str(), sid) {
                ids.push(e.target.clone());
            }
            let ghost mid = strs(ids@);
            if str_eq(e.target.as_str(), sid) {
                ids.push(e.source.clone());
            }
            proof {
                assert forall|x: Seq<char>|
                    strs(ids@).contains(x) <==> (x == sid@ || exists|j: int|
                        0 <= j < k + 1 && ((#[trigger] graph@.edges[j].source == sid@
                            && graph@.edges[j].target == x) || (graph@.edges[j].target == sid@
                            && graph@.edges[j].source == x))) by {
                    if strs(ids@).contains(x) {
                        let w = choose|w: int| 0 <= w < strs(ids@).len() && strs(ids@)[w] == x;
                        if w < before.len() {
                            assert(before[w] == x);
                            assert(before.contains(x));
                        }
                    }
                    if x == sid@ {
                        assert(before.contains(x));
                        let w = choose|w: int| 0 <= w < before.len() && before[w] == x;
                        assert(strs(ids@)[w] == x);
                    } else if exists|j: int|
                        0 <= j < k && ((#[trigger] graph@.edges[j].source == sid@ && graph@.edges[j].target
                            == x) || (graph@.edges[j].target == sid@ && graph@.edges[j].source == x)) {
                        assert(before.contains(x));
                        let w = choose|w: int| 0 <= w < before.len() && before[w] == x;
                        assert(strs(ids@)[w] == x);
                    } else if graph@.edges[k as int].source == sid@ && graph@.edges[k as int].target == x {
                        assert(mid[before.len() as int] == x);
                        assert(strs(ids@)[before.len() as int] == x);
                    } else if graph@.edges[k as int].target == sid@ && graph@.edges[k as int].source == x {
                        assert(strs(ids@)[mid.len() as int] == x);
                    }
                }
            }
            k = k + 1;
        }
        let ghost nb = Set::new(|x: Seq<char>| in_neighbourhood(graph@, sid@, x));
        let r = pick_subgraph(graph, &ids, None, Ghost(nb));
        return r;
    }
    if str_eq(scope_kind, "edge") {
        let mut k: usize = 0;
        while k < graph.edges.len()
            invariant
                k <= graph.edges@.len(),
                scope_kind@ == "edge"@,
                scope_id == Some(sid),
                scope_kind@ != "group"@,
                scope_kind@ != "selection"@,
                scope_kind@ != "node"@,
                forall|j: int| 0 <= j < k ==> graph@.edges[j].id != sid@,
            decreases graph.edges@.len() - k,
        {
            proof {
                assert(graph@.edges[k as int] == graph.edges@[k as int]@);
            }
            if str_eq(graph.edges[k].id.as_str(), sid) {
                let e = &graph.edges[k];
                let mut ids: Vec<String> = Vec::new();
                ids.push(e.source.clone());
                ids.push(e.target.clone());
                proof {
                    assert(first_key::<GraphEdge>(graph@.edges, sid@, k as int));
                    let c = choose|c: int| first_key::<GraphEdge>(graph@.edges, sid@, c);
                    assert(c == k);
                    assert forall|x: Seq<char>| strs(ids@).contains(x) == set![graph@.edges[k as int].source, graph@.edges[k as int].target].contains(x) by {
                        if x == e@.source {
                            assert(strs(ids@)[0] == x);
                        }
                        if x == e@.target {
                            assert(strs(ids@)[1] == x);
                        }
                    }
                }
                let ghost ends = set![graph@.edges[k as int].source, graph@.edges[k as int].target];
                let r = pick_subgraph(graph, &ids, Some(sid), Ghost(ends));
                proof {
                    assert(exists|c: int| first_key::<GraphEdge>(graph@.edges, sid@, c));
                    let c = choose|c: int| first_key::<GraphEdge>(graph@.edges, sid@, c);
                    assert(c == k);
                    assert(scoped_subgraph(graph@, scope_kind@, Some(sid@)) == pick(graph@, ends, Some(sid@)));
                }
                return r;
            }
            k = k + 1;
        }
        let r = DecisionGraph { version: 1, nodes: Vec::new(), edges: Vec::new() };
        proof {
            assert forall|c: int| !first_key::<GraphEdge>(graph@.edges, sid@, c) by {
                if 0 <= c < graph@.edges.len() {
                    assert(graph@.edges[c].id != sid@);
                }
            }
            assert(r@.nodes =~= Seq::<GraphNodeView>::empty());
            assert(r@.edges =~= Seq::<GraphEdgeView>::empty());
        }
        return r;
    }
    graph.copy_of()
}


// ---------------------------------------------------------------------------
// Laws of patch application
// ---------------------------------------------------------------------------

pub(crate) proof fn lemma_keep_members<A>(s: Seq<A>, p: spec_fn(A) -> bool)
    ensures
        forall|i: int| 0 <= i < keep(s, p).len() ==> p(#[trigger] keep(s, p)[i]) && s.contains(keep(s, p)[i]),
    decreases s.len(),
{
    if s.len() > 0 {
        lemma_keep_members(s.drop_last(), p);
        let k = keep(s, p);
        let k0 = keep(s.drop_last(), p);
        assert forall|i: int| 0 <= i < k.len() implies p(#[trigger] k[i]) && s.contains(k[i]) by {
            if i < k0.len() {
                assert(k[i] == k0[i]);
                let w = choose|w: int| 0 <= w < s.drop_last().len() && s.drop_last()[w] == k0[i];
                assert(s[w] == k0[i]);
            } else {
                assert(k[i] == s.last());
                assert(s[s.len() - 1] == s.last());
            }
        }
    }
}

/// No two entries share a key.
pub open spec fn unique_keys<T: Keyed>(s: Seq<T::V>) -> bool {
    forall|i: int, j: int| 0 <= i < j < s.len() ==> T::key_of(#[trigger] s[i]) != T::key_of(#[trigger] s[j])
}

pub(crate) proof fn lemma_keep_unique<T: Keyed>(s: Seq<T::V>, p: spec_fn(T::V) -> bool)
    requires
        unique_keys::<T>(s),
    ensures
        unique_keys::<T>(keep(s, p)),
    decreases s.len(),
{
    if s.len() > 0 {
        lemma_keep_unique::<T>(s.drop_last(), p);
        lemma_keep_members(s.drop_last(), p);
        let k = keep(s, p);
        let k0 = keep(s.drop_last(), p);
        if p(s.last()) {
            assert forall|i: int, j: int| 0 <= i < j < k.len() implies T::key_of(#[trigger] k[i])
                != T::key_of(#[trigger] k[j]) by {
                if j == k0.len() {
                    assert(k[i] == k0[i]);
                    let w = choose|w: int| 0 <= w < s.drop_last().len() && s.drop_last()[w] == k0[i];
                    assert(s[w] == k0[i]);
                    assert(T::key_of(s[w]) != T::key_of(s[s.len() - 1]));
                } else {
                    assert(k[i] == k0[i] && k[j] == k0[j]);
                }
            }
        }
    }
}

pub(crate) proof fn lemma_set_unique<T: Keyed>(s: Seq<T::V>, v: T::V)
    requires
        unique_keys::<T>(s),
    ensures
        unique_keys::<T>(om_set::<T>(s, v)),
{
    let r = om_set::<T>(s, v);
    if exists|i: int| first_key::<T>(s, T::key_of(v), i) {
        let c = choose|i: int| first_key::<T>(s, T::key_of(v), i);
        assert forall|i: int, j: int| 0 <= i < j < r.len() implies T::key_of(#[trigger] r[i]) != T::key_of(
            #[trigger] r[j],
        ) by {
            if i != c && j != c {
                assert(r[i] == s[i] && r[j] == s[j]);
            } else if i == c {
                assert(r[j] == s[j]);
                assert(T::key_of(s[c]) != T::key_of(s[j]));
            } else {
                assert(r[i] == s[i]);
                assert(T::key_of(s[i]) != T::key_of(s[c]));
            }
        }
    } else {
        assert forall|i: int, j: int| 0 <= i < j < r.len() implies T::key_of(#[trigger] r[i]) != T::key_of(
            #[trigger] r[j],
        ) by {
            if j == s.len() {
                assert(r[i] == s[i]);
                if T::key_of(s[i]) == T::key_of(v) {
                    lemma_first_exists::<T>(s, T::key_of(v), i);
                    let m = choose|m: int| 0 <= m <= i && T::key_of(s[m]) == T::key_of(v) && forall|q: int|
                        0 <= q < m ==> T::key_of(s[q]) != T::key_of(v);
                    assert(first_key::<T>(s, T::key_of(v), m));
                }
            } else {
                assert(r[i] == s[i] && r[j] == s[j]);
            }
        }
    }
}

proof fn lemma_first_exists<T: Keyed>(s: Seq<T::V>, k: Seq<char>, i: int)
    requires
        0 <= i < s.len(),
        T::key_of(s[i]) == k,
    ensures
        exists|m: int| 0 <= m <= i && T::key_of(s[m]) == k && forall|q: int| 0 <= q < m ==> T::key_of(s[q]) != k,
    decreases i,
{
    if exists|q: int| 0 <= q < i && T::key_of(s[q]) == k {
        let q = choose|q: int| 0 <= q < i && T::key_of(s[q]) == k;
        lemma_first_exists::<T>(s, k, q);
    } else {
        assert(0 <= i <= i && T::key_of(s[i]) == k && forall|q: int| 0 <= q < i ==> T::key_of(s[q]) != k);
    }
}

pub(crate) proof fn lemma_set_all_unique<T: Keyed>(s: Seq<T::V>, vs: Seq<T::V>)
    requires
        unique_keys::<T>(s),
    ensures
        unique_keys::<T>(om_set_all::<T>(s, vs)),
    decreases vs.len(),
{
    if vs.len() > 0 {
        lemma_set_all_unique::<T>(s, vs.drop_last());
        lemma_set_unique::<T>(om_set_all::<T>(s, vs.drop_last()), vs.last());
    }
}

proof fn lemma_remove_nodes_unique(nodes: Seq<GraphNodeView>, edges: Seq<GraphEdgeView>, ids: Seq<Seq<char>>)
    requires
        unique_keys::<GraphNode>(nodes),
    ensures
        unique_keys::<GraphNode>(remove_nodes(nodes, edges, ids).0),
    decreases ids.len(),
{
    if ids.len() > 0 {
        lemma_remove_nodes_unique(nodes, edges, ids.drop_last());
        let (n, e) = remove_nodes(nodes, edges, ids.drop_last());
        lemma_keep_unique::<GraphNode>(n, |v: GraphNodeView| GraphNode::key_of(v) != ids.last());
    }
}

/// After any patch, every edge's two endpoints are nodes of the graph.
pub proof fn lemma_patch_keeps_edges_connected(g: DecisionGraphView, p: GraphPatchView)
    ensures
        forall|i: int|
            0 <= i < patched_graph(g, p).edges.len() ==> node_ids(patched_graph(g, p).nodes).contains(
                (#[trigger] patched_graph(g, p).edges[i]).source,
            ) && node_ids(patched_graph(g, p).nodes).contains(patched_graph(g, p).edges[i].target),
{
    let r = patched_graph(g, p);
    let n0 = om_set_all::<GraphNode>(seq![], g.nodes);
    let e0 = om_set_all::<GraphEdge>(seq![], g.edges);
    let (n1, e1) = remove_nodes(n0, e0, p.remove_node_ids);
    let e2 = om_delete_all::<GraphEdge>(e1, p.remove_edge_ids);
    let n3 = om_set_all::<GraphNode>(om_set_all::<GraphNode>(n1, p.add_nodes), p.update_nodes);
    let e3 = om_set_all::<GraphEdge>(om_set_all::<GraphEdge>(e2, p.add_edges), p.update_edges);
    lemma_keep_members(
        e3,
        |e: GraphEdgeView| node_ids(n3).contains(e.source) && node_ids(n3).contains(e.target),
    );
}

/// After any patch, no two nodes share an id.
pub proof fn lemma_patch_keeps_node_ids_unique(g: DecisionGraphView, p: GraphPatchView)
    ensures
        unique_keys::<GraphNode>(patched_graph(g, p).nodes),
{
    let n0 = om_set_all::<GraphNode>(seq![], g.nodes);
    let e0 = om_set_all::<GraphEdge>(seq![], g.edges);
    lemma_set_all_unique::<GraphNode>(seq![], g.nodes);
    lemma_remove_nodes_unique(n0, e0, p.remove_node_ids);
    let (n1, e1) = remove_nodes(n0, e0, p.remove_node_ids);
    lemma_set_all_unique::<GraphNode>(n1, p.add_nodes);
    lemma_set_all_unique::<GraphNode>(om_set_all::<GraphNode>(n1, p.add_nodes), p.update_nodes);
}


/// What `keep` accepts of a sequence stays in it.
pub(crate) proof fn lemma_keep_keeps<A>(s: Seq<A>, p: spec_fn(A) -> bool, x: A)
    requires
        s.contains(x),
        p(x),
    ensures
        keep(s, p).contains(x),
    decreases s.len(),
{
    if s.last() == x {
        assert(keep(s, p).last() == x);
    } else {
        let w = choose|w: int| 0 <= w < s.len() && s[w] == x;
        assert(s.drop_last()[w] == x);
        lemma_keep_keeps(s.drop_last(), p, x);
        let k = keep(s.drop_last(), p);
        let v = choose|v: int| 0 <= v < k.len() && k[v] == x;
        if p(s.last()) {
            assert(keep(s, p)[v] == x);
        }
    }
}

/// An ordered-map `set` holds the value it set.
pub(crate) proof fn lemma_set_holds<T: Keyed>(s: Seq<T::V>, v: T::V)
    ensures
        om_set::<T>(s, v).contains(v),
{
    if exists|i: int| first_key::<T>(s, T::key_of(v), i) {
        let c = choose|i: int| first_key::<T>(s, T::key_of(v), i);
        assert(om_set::<T>(s, v)[c] == v);
    } else {
        assert(om_set::<T>(s, v)[s.len() as int] == v);
    }
}

/// An ordered-map `set` keeps every entry of another key.
pub(crate) proof fn lemma_set_keeps_other<T: Keyed>(s: Seq<T::V>, v: T::V, x: T::V)
    requires
        s.contains(x),
        T::key_of(x) != T::key_of(v),
    ensures
        om_set::<T>(s, v).contains(x),
{
    let w = choose|w: int| 0 <= w < s.len() && s[w] == x;
    if exists|i: int| first_key::<T>(s, T::key_of(v), i) {
        let c = choose|i: int| first_key::<T>(s, T::key_of(v), i);
        assert(om_set::<T>(s, v)[w] == x);
    } else {
        assert(om_set::<T>(s, v)[w] == x);
    }
}

/// `set` of a list keeps every entry whose key none of the list has.
proof fn lemma_set_all_keeps_other<T: Keyed>(s: Seq<T::V>, vs: Seq<T::V>, x: T::V)
    requires
        s.contains(x),
        forall|j: int| 0 <= j < vs.len() ==> T::key_of(#[trigger] vs[j]) != T::key_of(x),
    ensures
        om_set_all::<T>(s, vs).contains(x),
    decreases vs.len(),
{
    if vs.len() > 0 {
        lemma_set_all_keeps_other::<T>(s, vs.drop_last(), x);
        assert(T::key_of(vs[vs.len() - 1]) != T::key_of(x));
        lemma_set_keeps_other::<T>(om_set_all::<T>(s, vs.drop_last()), vs.last(), x);
    }
}

/// `set` of a list holds, for each key it sets, the last value set for it.
proof fn lemma_set_all_holds_last<T: Keyed>(s: Seq<T::V>, vs: Seq<T::V>, i: int)
    requires
        0 <= i < vs.len(),
        forall|j: int| i < j < vs.len() ==> T::key_of(#[trigger] vs[j]) != T::key_of(vs[i]),
    ensures
        om_set_all::<T>(s, vs).contains(vs[i]),
    decreases vs.len(),
{
    if i == vs.len() - 1 {
        lemma_set_holds::<T>(om_set_all::<T>(s, vs.drop_last()), vs.last());
    } else {
        let init = vs.drop_last();
        assert forall|j: int| i < j < init.len() implies T::key_of(#[trigger] init[j]) != T::key_of(init[i]) by {
            assert(init[j] == vs[j]);
        }
        lemma_set_all_holds_last::<T>(s, init, i);
        assert(T::key_of(vs[vs.len() - 1]) != T::key_of(vs[i]));
        lemma_set_keeps_other::<T>(om_set_all::<T>(s, init), vs.last(), vs[i]);
    }
}

/// `vs[i]` is the last entry of `vs` with its id.
pub open spec fn last_of_its_id<T: Keyed>(vs: Seq<T::V>, i: int) -> bool {
    &&& 0 <= i < vs.len()
    &&& forall|j: int| i < j < vs.len() ==> T::key_of(#[trigger] vs[j]) != T::key_of(vs[i])
}

/// A patch's adds and updates land: each node update (the last one for its
/// id) is a node of the result, and so is each node add (the last add for
/// its id) that no update overrides; each edge update (the last one for its
/// id) whose two ends are nodes of the result is an edge of the result, and
/// so is each such edge add that no update overrides.
pub proof fn lemma_patch_lands_adds_and_updates(g: DecisionGraphView, p: GraphPatchView)
    ensures
        forall|i: int|
            last_of_its_id::<GraphNode>(p.update_nodes, i) ==> patched_graph(g, p).nodes.contains(
                #[trigger] p.update_nodes[i],
            ),
        forall|i: int|
            last_of_its_id::<GraphNode>(p.add_nodes, i) && (forall|j: int|
                0 <= j < p.update_nodes.len() ==> (#[trigger] p.update_nodes[j]).id != p.add_nodes[i].id)
                ==> patched_graph(g, p).nodes.contains(#[trigger] p.add_nodes[i]),
        forall|i: int|
            last_of_its_id::<GraphEdge>(p.update_edges, i) && node_ids(patched_graph(g, p).nodes).contains(
                p.update_edges[i].source,
            ) && node_ids(patched_graph(g, p).nodes).contains(p.update_edges[i].target)
                ==> patched_graph(g, p).edges.contains(#[trigger] p.update_edges[i]),
        forall|i: int|
            last_of_its_id::<GraphEdge>(p.add_edges, i) && (forall|j: int|
                0 <= j < p.update_edges.len() ==> (#[trigger] p.update_edges[j]).id != p.add_edges[i].id)
                && node_ids(patched_graph(g, p).nodes).contains(p.add_edges[i].source) && node_ids(
                patched_graph(g, p).nodes,
            ).contains(p.add_edges[i].target) ==> patched_graph(g, p).edges.contains(#[trigger] p.add_edges[i]),
{
    let n0 = om_set_all::<GraphNode>(seq![], g.nodes);
    let e0 = om_set_all::<GraphEdge>(seq![], g.edges);
    let (n1, e1) = remove_nodes(n0, e0, p.remove_node_ids);
    let e2 = om_delete_all::<GraphEdge>(e1, p.remove_edge_ids);
    let n2 = om_set_all::<GraphNode>(n1, p.add_nodes);
    let n3 = om_set_all::<GraphNode>(n2, p.update_nodes);
    let e2a = om_set_all::<GraphEdge>(e2, p.add_edges);
    let e3 = om_set_all::<GraphEdge>(e2a, p.update_edges);
    let live = |e: GraphEdgeView| node_ids(n3).contains(e.source) && node_ids(n3).contains(e.target);
    assert(patched_graph(g, p).nodes == n3);
    assert(patched_graph(g, p).edges == keep(e3, live));
    assert forall|i: int| last_of_its_id::<GraphNode>(p.update_nodes, i) implies n3.contains(
        #[trigger] p.update_nodes[i],
    ) by {
        lemma_set_all_holds_last::<GraphNode>(n2, p.update_nodes, i);
    }
    assert forall|i: int|
        last_of_its_id::<GraphNode>(p.add_nodes, i) && (forall|j: int|
            0 <= j < p.update_nodes.len() ==> (#[trigger] p.update_nodes[j]).id != p.add_nodes[i].id) implies n3.contains(
        #[trigger] p.add_nodes[i],
    ) by {
        lemma_set_all_holds_last::<GraphNode>(n1, p.add_nodes, i);
        lemma_set_all_keeps_other::<GraphNode>(n2, p.update_nodes, p.add_nodes[i]);
    }
    assert forall|i: int|
        last_of_its_id::<GraphEdge>(p.update_edges, i) && node_ids(n3).contains(p.update_edges[i].source) && node_ids(
            n3,
        ).contains(p.update_edges[i].target) implies keep(e3, live).contains(#[trigger] p.update_edges[i]) by {
        lemma_set_all_holds_last::<GraphEdge>(e2a, p.update_edges, i);
        lemma_keep_keeps(e3, live, p.update_edges[i]);
    }
    assert forall|i: int|
        last_of_its_id::<GraphEdge>(p.add_edges, i) && (forall|j: int|
            0 <= j < p.update_edges.len() ==> (#[trigger] p.update_edges[j]).id != p.add_edges[i].id) && node_ids(
            n3,
        ).contains(p.add_edges[i].source) && node_ids(n3).contains(p.add_edges[i].target) implies keep(
        e3,
        live,
    ).contains(#[trigger] p.add_edges[i]) by {
        lemma_set_all_holds_last::<GraphEdge>(e2, p.add_edges, i);
        lemma_set_all_keeps_other::<GraphEdge>(e2a, p.update_edges, p.add_edges[i]);
        lemma_keep_keeps(e3, live, p.add_edges[i]);
    }
}


/// Every entry of a `set` of a list is an entry of the start or of the list.
pub(crate) proof fn lemma_set_all_from<T: Keyed>(s: Seq<T::V>, vs: Seq<T::V>, x: T::V)
    requires
        om_set_all::<T>(s, vs).contains(x),
    ensures
        s.contains(x) || vs.contains(x),
    decreases vs.len(),
{
    if vs.len() > 0 {
        let init = vs.drop_last();
        let m = om_set_all::<T>(s, init);
        let r = om_set::<T>(m, vs.last());
        let w = choose|w: int| 0 <= w < r.len() && r[w] == x;
        if x == vs.last() {
            assert(vs[vs.len() - 1] == x);
        } else {
            if exists|i: int| first_key::<T>(m, T::key_of(vs.last()), i) {
                assert(m[w] == x);
            } else {
                assert(m[w] == x);
            }
            lemma_set_all_from::<T>(s, init, x);
            if init.contains(x) {
                let v = choose|v: int| 0 <= v < init.len() && init[v] == x;
                assert(vs[v] == x);
            }
        }
    }
}

/// After deleting each key of a list, no entry has one of them, and every
/// entry was there before.
proof fn lemma_delete_all_drops<T: Keyed>(s: Seq<T::V>, ks: Seq<Seq<char>>, x: T::V)
    requires
        om_delete_all::<T>(s, ks).contains(x),
    ensures
        s.contains(x),
        !ks.contains(T::key_of(x)),
    decreases ks.len(),
{
    if ks.len() > 0 {
        let init = ks.drop_last();
        let m = om_delete_all::<T>(s, init);
        let pr = |v: T::V| T::key_of(v) != ks.last();
        lemma_keep_members(m, pr);
        let r = keep(m, pr);
        let w = choose|w: int| 0 <= w < r.len() && r[w] == x;
        assert(pr(r[w]) && m.contains(r[w]));
        lemma_delete_all_drops::<T>(s, init, x);
        if ks.contains(T::key_of(x)) {
            let v = choose|v: int| 0 <= v < ks.len() && ks[v] == T::key_of(x);
            if v < ks.len() - 1 {
                assert(init[v] == ks[v]);
            }
        }
    }
}

/// After removing each node of a list, no node left has one of their ids
/// and no edge left touches one; what is left was there before.
proof fn lemma_remove_nodes_drops(nodes: Seq<GraphNodeView>, edges: Seq<GraphEdgeView>, ids: Seq<Seq<char>>)
    ensures
        forall|x: GraphNodeView|
            #[trigger] remove_nodes(nodes, edges, ids).0.contains(x) ==> nodes.contains(x) && !ids.contains(x.id),
        forall|e: GraphEdgeView|
            #[trigger] remove_nodes(nodes, edges, ids).1.contains(e) ==> edges.contains(e) && !ids.contains(e.source)
                && !ids.contains(e.target),
    decreases ids.len(),
{
    if ids.len() > 0 {
        let init = ids.drop_last();
        lemma_remove_nodes_drops(nodes, edges, init);
        let (n, e) = remove_nodes(nodes, edges, init);
        let pn = |v: GraphNodeView| GraphNode::key_of(v) != ids.last();
        let pe = |x: GraphEdgeView| x.source != ids.last() && x.target != ids.last();
        lemma_keep_members(n, pn);
        lemma_keep_members(e, pe);
        assert forall|x: GraphNodeView| #[trigger] remove_nodes(nodes, edges, ids).0.contains(x) implies nodes.contains(
            x,
        ) && !ids.contains(x.id) by {
            let r = keep(n, pn);
            let w = choose|w: int| 0 <= w < r.len() && r[w] == x;
            assert(pn(r[w]) && n.contains(r[w]));
            if ids.contains(x.id) {
                let v = choose|v: int| 0 <= v < ids.len() && ids[v] == x.id;
                if v < ids.len() - 1 {
                    assert(init[v] == ids[v]);
                }
            }
        }
        assert forall|x: GraphEdgeView| #[trigger] remove_nodes(nodes, edges, ids).1.contains(x) implies edges.contains(
            x,
        ) && !ids.contains(x.source) && !ids.contains(x.target) by {
            let r = keep(e, pe);
            let w = choose|w: int| 0 <= w < r.len() && r[w] == x;
            assert(pe(r[w]) && e.contains(r[w]));
            if ids.contains(x.source) {
                let v = choose|v: int| 0 <= v < ids.len() && ids[v] == x.source;
                if v < ids.len() - 1 {
                    assert(init[v] == ids[v]);
                }
            }
            if ids.contains(x.target) {
                let v = choose|v: int| 0 <= v < ids.len() && ids[v] == x.target;
                if v < ids.len() - 1 {
                    assert(init[v] == ids[v]);
                }
            }
        }
    }
}

/// Every entry of a `set` of a list starting empty is one of the list.
proof fn lemma_set_all_of_empty<T: Keyed>(vs: Seq<T::V>, x: T::V)
    requires
        om_set_all::<T>(seq![], vs).contains(x),
    ensures
        vs.contains(x),
{
    lemma_set_all_from::<T>(seq![], vs, x);
}

/// A patch's removals hold: a node of the result is one of the graph's, not
/// removed, or one the patch adds or updates; an edge of the result is one
/// of the graph's, neither removed itself nor touching a removed node, or
/// one the patch adds or updates.
pub proof fn lemma_patch_removals_hold(g: DecisionGraphView, p: GraphPatchView)
    ensures
        forall|x: GraphNodeView|
            #[trigger] patched_graph(g, p).nodes.contains(x) ==> (g.nodes.contains(x) && !p.remove_node_ids.contains(x.id))
                || p.add_nodes.contains(x) || p.update_nodes.contains(x),
        forall|e: GraphEdgeView|
            #[trigger] patched_graph(g, p).edges.contains(e) ==> (g.edges.contains(e) && !p.remove_edge_ids.contains(e.id)
                && !p.remove_node_ids.contains(e.source) && !p.remove_node_ids.contains(e.target))
                || p.add_edges.contains(e) || p.update_edges.contains(e),
{
    let n0 = om_set_all::<GraphNode>(seq![], g.nodes);
    let e0 = om_set_all::<GraphEdge>(seq![], g.edges);
    let (n1, e1) = remove_nodes(n0, e0, p.remove_node_ids);
    let e2 = om_delete_all::<GraphEdge>(e1, p.remove_edge_ids);
    let n2 = om_set_all::<GraphNode>(n1, p.add_nodes);
    let n3 = om_set_all::<GraphNode>(n2, p.update_nodes);
    let e2a = om_set_all::<GraphEdge>(e2, p.add_edges);
    let e3 = om_set_all::<GraphEdge>(e2a, p.update_edges);
    let live = |e: GraphEdgeView| node_ids(n3).contains(e.source) && node_ids(n3).contains(e.target);
    lemma_remove_nodes_drops(n0, e0, p.remove_node_ids);
    lemma_keep_members(e3, live);
    assert forall|x: GraphNodeView| #[trigger] patched_graph(g, p).nodes.contains(x) implies (g.nodes.contains(x)
        && !p.remove_node_ids.contains(x.id)) || p.add_nodes.contains(x) || p.update_nodes.contains(x) by {
        lemma_set_all_from::<GraphNode>(n2, p.update_nodes, x);
        if n2.contains(x) {
            lemma_set_all_from::<GraphNode>(n1, p.add_nodes, x);
            if n1.contains(x) {
                assert(remove_nodes(n0, e0, p.remove_node_ids).0.contains(x));
                lemma_set_all_of_empty::<GraphNode>(g.nodes, x);
            }
        }
    }
    assert forall|e: GraphEdgeView| #[trigger] patched_graph(g, p).edges.contains(e) implies (g.edges.contains(e)
        && !p.remove_edge_ids.contains(e.id) && !p.remove_node_ids.contains(e.source) && !p.remove_node_ids.contains(
        e.target,
    )) || p.add_edges.contains(e) || p.update_edges.contains(e) by {
        let r = keep(e3, live);
        let w = choose|w: int| 0 <= w < r.len() && r[w] == e;
        assert(e3.contains(r[w]));
        lemma_set_all_from::<GraphEdge>(e2a, p.update_edges, e);
        if e2a.contains(e) {
            lemma_set_all_from::<GraphEdge>(e2, p.add_edges, e);
            if e2.contains(e) {
                lemma_delete_all_drops::<GraphEdge>(e1, p.remove_edge_ids, e);
                assert(remove_nodes(n0, e0, p.remove_node_ids).1.contains(e));
                lemma_set_all_of_empty::<GraphEdge>(g.edges, e);
            }
        }
    }
}

} // verus!
