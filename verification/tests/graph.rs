use scene_core::graph::{
    apply_graph_patch, descendant_group_ids, edge_type_labels, export_type_labels,
    graph_text_digest, group_tags, make_mermaid, node_type_labels, scene_graph_for_group,
    selected_subgraph, selection_target, GraphPatch,
};
use scene_core::model::{
    Bounds, DecisionGraph, EdgeType, ExportType, GraphEdge, GraphNode, NodeStatus, NodeType, Point,
    Scene, SceneEdge, SceneGroup, SceneNode, SceneSelection, Size, Tag,
};

fn bits(x: f64) -> u64 {
    x.to_bits()
}

fn pct(c: u64) -> i64 {
    (f64::from_bits(c) * 100.0).round() as i64
}

fn digest(g: &DecisionGraph) -> String {
    let nodes: Vec<i64> = g.nodes.iter().map(|n| pct(n.confidence)).collect();
    let edges: Vec<i64> = g.edges.iter().map(|e| pct(e.confidence)).collect();
    graph_text_digest(g, &nodes, &edges)
}

fn gnode(id: &str, conf: f64) -> GraphNode {
    GraphNode {
        id: id.to_string(),
        node_type: NodeType::Option,
        title: format!("Title {id}"),
        summary: format!("Summary {id}"),
        detail: String::new(),
        status: NodeStatus::Viable,
        confidence: bits(conf),
        evidence_refs: Vec::new(),
        child_decision_ids: Vec::new(),
    }
}

fn gedge(id: &str, source: &str, target: &str) -> GraphEdge {
    GraphEdge {
        id: id.to_string(),
        edge_type: EdgeType::Supports,
        source: source.to_string(),
        target: target.to_string(),
        label: String::new(),
        rationale: format!("because {id}"),
        confidence: bits(0.5),
    }
}

fn graph(nodes: Vec<GraphNode>, edges: Vec<GraphEdge>) -> DecisionGraph {
    DecisionGraph { version: 1, nodes, edges }
}

#[test]
fn apply_patch_ordering_and_cascade_prune() {
    let g = graph(
        vec![gnode("a", 0.5), gnode("b", 0.5), gnode("c", 0.5)],
        vec![gedge("e1", "a", "b"), gedge("e2", "b", "c")],
    );
    let patch = GraphPatch {
        remove_node_ids: vec!["b".to_string()],
        add_nodes: vec![gnode("d", 0.5)],
        add_edges: vec![gedge("e3", "a", "d")],
        ..Default::default()
    };
    let out = apply_graph_patch(&g, &patch);
    let node_ids: Vec<&str> = out.nodes.iter().map(|n| n.id.as_str()).collect();
    assert_eq!(node_ids, vec!["a", "c", "d"]);
    let edge_ids: Vec<&str> = out.edges.iter().map(|e| e.id.as_str()).collect();
    assert_eq!(edge_ids, vec!["e3"]);
    assert_eq!(out.version, 1);
}

#[test]
fn apply_patch_referential_integrity_prune() {
    let g = graph(vec![gnode("a", 0.5)], vec![]);
    let patch = GraphPatch { add_edges: vec![gedge("e1", "a", "ghost")], ..Default::default() };
    let out = apply_graph_patch(&g, &patch);
    assert!(out.edges.is_empty());
}

#[test]
fn apply_patch_update_overwrites_in_place() {
    let g = graph(vec![gnode("a", 0.5), gnode("b", 0.5)], vec![]);
    let mut updated = gnode("a", 0.9);
    updated.title = "Updated A".to_string();
    let patch = GraphPatch { update_nodes: vec![updated], ..Default::default() };
    let out = apply_graph_patch(&g, &patch);
    assert_eq!(out.nodes[0].id, "a");
    assert_eq!(out.nodes[0].title, "Updated A");
    assert_eq!(f64::from_bits(out.nodes[0].confidence), 0.9);
}

#[test]
fn apply_patch_remove_edge_and_duplicate_input_ids() {
    let g = graph(
        vec![gnode("a", 0.5), gnode("b", 0.5), gnode("a", 0.7)],
        vec![gedge("e1", "a", "b"), gedge("e2", "b", "a")],
    );
    let patch = GraphPatch { remove_edge_ids: vec!["e1".to_string()], ..Default::default() };
    let out = apply_graph_patch(&g, &patch);
    let node_ids: Vec<&str> = out.nodes.iter().map(|n| n.id.as_str()).collect();
    assert_eq!(node_ids, vec!["a", "b"]);
    assert_eq!(f64::from_bits(out.nodes[0].confidence), 0.7);
    let edge_ids: Vec<&str> = out.edges.iter().map(|e| e.id.as_str()).collect();
    assert_eq!(edge_ids, vec!["e2"]);
}

#[test]
fn digest_format_matches_ts() {
    let g = graph(
        vec![GraphNode {
            id: "n1".to_string(),
            node_type: NodeType::DecisionPoint,
            title: "Pick DB".to_string(),
            summary: "Choose a store".to_string(),
            detail: String::new(),
            status: NodeStatus::Viable,
            confidence: bits(0.756),
            evidence_refs: Vec::new(),
            child_decision_ids: Vec::new(),
        }],
        vec![GraphEdge {
            id: "e1".to_string(),
            edge_type: EdgeType::DependsOn,
            source: "n1".to_string(),
            target: "n2".to_string(),
            label: String::new(),
            rationale: "needs schema".to_string(),
            confidence: bits(0.5),
        }],
    );
    let expected = "Nodes:\n- [decision_point/viable/76%] n1: Pick DB — Choose a store\n\nEdges:\n- [depends_on/50%] n1 -> n2: needs schema";
    assert_eq!(digest(&g), expected);
}

#[test]
fn digest_empty_uses_none_placeholders() {
    let g = graph(vec![], vec![]);
    assert_eq!(digest(&g), "Nodes:\n- none\n\nEdges:\n- none");
}

#[test]
fn digest_edge_label_takes_priority_over_rationale() {
    let mut e = gedge("e1", "a", "b");
    e.label = "blocks build".to_string();
    let g = graph(vec![gnode("a", 0.5), gnode("b", 0.5)], vec![e]);
    assert!(digest(&g).contains("a -> b: blocks build"));
}

#[test]
fn digest_prints_negative_and_multi_digit_percentages() {
    let g = graph(vec![gnode("a", 0.5), gnode("b", 0.5)], vec![]);
    let out = graph_text_digest(&g, &[-7, 123], &[]);
    assert_eq!(
        out,
        "Nodes:\n- [option/viable/-7%] a: Title a — Summary a\n- [option/viable/123%] b: Title b — Summary b\n\nEdges:\n- none"
    );
}

#[test]
fn mermaid_format_matches_ts() {
    let g = graph(
        vec![GraphNode {
            id: "node-1".to_string(),
            node_type: NodeType::Option,
            title: "Use \"Postgres\"".to_string(),
            summary: String::new(),
            detail: String::new(),
            status: NodeStatus::Draft,
            confidence: bits(0.5),
            evidence_refs: Vec::new(),
            child_decision_ids: Vec::new(),
        }],
        vec![GraphEdge {
            id: "edge-1".to_string(),
            edge_type: EdgeType::Supports,
            source: "node-1".to_string(),
            target: "node-2".to_string(),
            label: String::new(),
            rationale: String::new(),
            confidence: bits(0.5),
        }],
    );
    let expected = "flowchart LR\n  node_1[\"Option: Use 'Postgres'\"]\n  node_1 -->|\"supports\"| node_2";
    assert_eq!(make_mermaid(&g), expected);
}

#[test]
fn mermaid_of_empty_graph_is_the_header() {
    assert_eq!(make_mermaid(&graph(vec![], vec![])), "flowchart LR");
}

fn empty_scene(groups: Vec<SceneGroup>, nodes: Vec<SceneNode>, edges: Vec<SceneEdge>) -> Scene {
    Scene {
        version: 1,
        scene_version: 0,
        groups,
        nodes,
        edges,
        tags: vec![],
        comments: vec![],
        artifacts: vec![],
        proposals: None,
        selection: SceneSelection::Canvas,
        updated_at: "t".to_string(),
    }
}

#[test]
fn descendant_group_closure() {
    let scene = empty_scene(
        vec![
            group_fixture("root", None),
            group_fixture("child", Some("root")),
            group_fixture("grandchild", Some("child")),
            group_fixture("other", None),
        ],
        vec![],
        vec![],
    );
    let ids = descendant_group_ids(&scene, "root");
    let has = |x: &str| ids.iter().any(|i| i == x);
    assert!(has("root"));
    assert!(has("child"));
    assert!(has("grandchild"));
    assert!(!has("other"));
    assert_eq!(ids.len(), 3);
}

#[test]
fn descendant_group_closure_follows_out_of_order_parents() {
    let scene = empty_scene(
        vec![
            group_fixture("grandchild", Some("child")),
            group_fixture("child", Some("root")),
            group_fixture("root", None),
        ],
        vec![],
        vec![],
    );
    let ids = descendant_group_ids(&scene, "root");
    assert_eq!(ids, vec!["root", "child", "grandchild"]);
}

#[test]
fn scene_graph_for_group_strips_placement() {
    let scene = empty_scene(
        vec![group_fixture("root", None), group_fixture("child", Some("root"))],
        vec![
            scene_node_fixture("n1", "root"),
            scene_node_fixture("n2", "child"),
            scene_node_fixture("n3", "other"),
        ],
        vec![
            scene_edge_fixture("e1", "root", "n1", "n2"),
            scene_edge_fixture("e2", "child", "n2", "n3"),
        ],
    );
    let g = scene_graph_for_group(&scene, "root");
    let node_ids: Vec<&str> = g.nodes.iter().map(|n| n.id.as_str()).collect();
    assert_eq!(node_ids, vec!["n1", "n2"]);
    let edge_ids: Vec<&str> = g.edges.iter().map(|e| e.id.as_str()).collect();
    assert_eq!(edge_ids, vec!["e1"]);
}

#[test]
fn selected_subgraph_node_neighbourhood() {
    let g = graph(
        vec![gnode("a", 0.5), gnode("b", 0.5), gnode("c", 0.5), gnode("d", 0.5)],
        vec![gedge("e1", "a", "b"), gedge("e2", "c", "a"), gedge("e3", "c", "d")],
    );
    let sub = selected_subgraph(&g, "node", Some("a"));
    let mut node_ids: Vec<&str> = sub.nodes.iter().map(|n| n.id.as_str()).collect();
    node_ids.sort();
    assert_eq!(node_ids, vec!["a", "b", "c"]);
    let mut edge_ids: Vec<&str> = sub.edges.iter().map(|e| e.id.as_str()).collect();
    edge_ids.sort();
    assert_eq!(edge_ids, vec!["e1", "e2"]);
}

#[test]
fn selected_subgraph_group_returns_whole() {
    let g = graph(vec![gnode("a", 0.5)], vec![]);
    let sub = selected_subgraph(&g, "group", Some("g1"));
    assert_eq!(sub.nodes.len(), 1);
}

#[test]
fn selected_subgraph_missing_id_returns_whole() {
    let g = graph(vec![gnode("a", 0.5)], vec![]);
    let sub = selected_subgraph(&g, "node", None);
    assert_eq!(sub.nodes.len(), 1);
}

#[test]
fn selected_subgraph_edge_missing_returns_empty() {
    let g = graph(vec![gnode("a", 0.5)], vec![]);
    let sub = selected_subgraph(&g, "edge", Some("nope"));
    assert!(sub.nodes.is_empty());
    assert!(sub.edges.is_empty());
}

#[test]
fn selected_subgraph_edge_keeps_edge_and_endpoints() {
    let g = graph(
        vec![gnode("a", 0.5), gnode("b", 0.5), gnode("c", 0.5)],
        vec![gedge("e1", "a", "b"), gedge("e2", "b", "a"), gedge("e3", "b", "c")],
    );
    let sub = selected_subgraph(&g, "edge", Some("e1"));
    let node_ids: Vec<&str> = sub.nodes.iter().map(|n| n.id.as_str()).collect();
    assert_eq!(node_ids, vec!["a", "b"]);
    let edge_ids: Vec<&str> = sub.edges.iter().map(|e| e.id.as_str()).collect();
    assert_eq!(edge_ids, vec!["e1"]);
    assert_eq!(sub.version, 1);
}

#[test]
fn label_collisions_match_ts() {
    assert_eq!(export_type_labels(ExportType::Madr), "MADR Markdown");
    assert_eq!(export_type_labels(ExportType::DesignDocMd), "MADR Markdown");
    assert_eq!(export_type_labels(ExportType::ImagePrompt), "Image prompt");
    assert_eq!(export_type_labels(ExportType::ArchitectureImage), "Image prompt");
    assert_eq!(node_type_labels(NodeType::DecisionPoint), "Decision point");
    assert_eq!(edge_type_labels(EdgeType::TradesOffWith), "trades off");
}

#[test]
fn group_tags_resolves_in_order_dropping_unknown() {
    let tags = vec![tag_fixture("t1", "alpha"), tag_fixture("t2", "beta")];
    let mut group = group_fixture("g", None);
    group.tag_ids = vec!["t2".to_string(), "missing".to_string(), "t1".to_string()];
    let resolved = group_tags(&group, &tags);
    let names: Vec<&str> = resolved.iter().map(|t| t.name.as_str()).collect();
    assert_eq!(names, vec!["beta", "alpha"]);
}

#[test]
fn selection_target_strings() {
    assert_eq!(selection_target(&SceneSelection::Canvas), "canvas");
    assert_eq!(selection_target(&SceneSelection::Node { id: "n1".into() }), "node:n1");
    assert_eq!(selection_target(&SceneSelection::Group { id: "g1".into() }), "group:g1");
    assert_eq!(selection_target(&SceneSelection::Edge { id: "e1".into() }), "edge:e1");
    assert_eq!(
        selection_target(&SceneSelection::Multi { ids: vec!["a".into(), "b".into()] }),
        "multi:a,b"
    );
    assert_eq!(selection_target(&SceneSelection::Multi { ids: vec![] }), "multi:");
}

fn zero_bounds() -> Bounds {
    Bounds { x: bits(0.0), y: bits(0.0), width: bits(0.0), height: bits(0.0) }
}

fn group_fixture(id: &str, parent: Option<&str>) -> SceneGroup {
    SceneGroup {
        id: id.to_string(),
        parent_group_id: parent.map(|p| p.to_string()),
        title: id.to_string(),
        summary: String::new(),
        bounds: zero_bounds(),
        tag_ids: Vec::new(),
        z_index: bits(0.0),
        collapsed: false,
        created_at: "t".to_string(),
        updated_at: "t".to_string(),
        meta: None,
    }
}

fn scene_node_fixture(id: &str, group_id: &str) -> SceneNode {
    SceneNode {
        id: id.to_string(),
        node_type: NodeType::Option,
        title: format!("Title {id}"),
        summary: String::new(),
        detail: String::new(),
        status: NodeStatus::Draft,
        confidence: bits(0.5),
        evidence_refs: Vec::new(),
        child_decision_ids: Vec::new(),
        group_id: group_id.to_string(),
        position: Point { x: bits(1.0), y: bits(2.0) },
        size: Size { width: bits(390.0), height: bits(390.0) },
        z_index: bits(0.0),
        tag_ids: Vec::new(),
        updated_at: None,
        meta: None,
    }
}

fn scene_edge_fixture(id: &str, group_id: &str, source: &str, target: &str) -> SceneEdge {
    SceneEdge {
        id: id.to_string(),
        edge_type: EdgeType::Supports,
        source: source.to_string(),
        target: target.to_string(),
        label: String::new(),
        rationale: String::new(),
        confidence: bits(0.5),
        group_id: group_id.to_string(),
        tag_ids: Vec::new(),
        updated_at: None,
        meta: None,
    }
}

fn tag_fixture(id: &str, name: &str) -> Tag {
    Tag {
        id: id.to_string(),
        name: name.to_string(),
        color: "#fff".to_string(),
        description: String::new(),
        created_at: "t".to_string(),
        updated_at: "t".to_string(),
    }
}
