use scene_core::object::binding::move_together::{BindingGraph, BindingNode};

fn node(id: &str, parent: Option<&str>, anchor_targets: Vec<&str>) -> BindingNode {
    BindingNode {
        id: id.to_string(),
        parent: parent.map(str::to_string),
        anchor_targets: anchor_targets.into_iter().map(str::to_string).collect(),
    }
}

#[test]
fn parent_closure_collects_children_deduped_in_stable_order() {
    let graph = BindingGraph::build(&[
        node("a", None, Vec::new()),
        node("b", Some("a"), Vec::new()),
        node("c", Some("a"), Vec::new()),
    ]);
    let (same_delta, reproject) = graph.propagation_closure(&["a".to_string()]);
    assert_eq!(same_delta, vec!["a", "b", "c"]);
    assert!(reproject.is_empty());
}

#[test]
fn nested_subtree_propagates_transitively() {
    let graph = BindingGraph::build(&[
        node("a", None, Vec::new()),
        node("b", Some("a"), Vec::new()),
        node("c", Some("b"), Vec::new()),
    ]);
    let (same_delta, _) = graph.propagation_closure(&["a".to_string()]);
    assert_eq!(same_delta, vec!["a", "b", "c"]);
}

#[test]
fn multi_select_roots_expand_each_subtree_once() {
    let graph = BindingGraph::build(&[
        node("a", None, Vec::new()),
        node("b", Some("a"), Vec::new()),
        node("d", None, Vec::new()),
        node("e", Some("d"), Vec::new()),
    ]);
    let (same_delta, _) = graph.propagation_closure(&["a".to_string(), "d".to_string()]);
    assert_eq!(same_delta, vec!["a", "b", "d", "e"]);
}

#[test]
fn move_together_member_that_is_also_a_descendant_appears_once() {
    let graph = BindingGraph::build(&[node("a", None, Vec::new()), node("b", Some("a"), Vec::new())]);
    let (same_delta, _) = graph.propagation_closure(&["a".to_string(), "b".to_string()]);
    assert_eq!(same_delta, vec!["a", "b"]);
}

#[test]
fn anchored_object_reprojects_when_its_target_moves() {
    let graph = BindingGraph::build(&[node("a", None, Vec::new()), node("f", None, vec!["a"])]);
    let (same_delta, reproject) = graph.propagation_closure(&["a".to_string()]);
    assert_eq!(same_delta, vec!["a"]);
    assert_eq!(reproject, vec![("f".to_string(), "a".to_string())]);
}

#[test]
fn anchored_to_a_subtree_descendant_still_reprojects() {
    let graph = BindingGraph::build(&[
        node("a", None, Vec::new()),
        node("b", Some("a"), Vec::new()),
        node("f", None, vec!["b"]),
    ]);
    let (same_delta, reproject) = graph.propagation_closure(&["a".to_string()]);
    assert_eq!(same_delta, vec!["a", "b"]);
    assert_eq!(reproject, vec![("f".to_string(), "b".to_string())]);
}

#[test]
fn follower_anchored_to_two_moved_targets_pairs_with_each() {
    let graph = BindingGraph::build(&[
        node("a", None, Vec::new()),
        node("b", None, Vec::new()),
        node("f", None, vec!["a", "b"]),
    ]);
    let (same_delta, reproject) = graph.propagation_closure(&["a".to_string(), "b".to_string()]);
    assert_eq!(same_delta, vec!["a", "b"]);
    assert_eq!(
        reproject,
        vec![("f".to_string(), "a".to_string()), ("f".to_string(), "b".to_string())]
    );
}

#[test]
fn duplicate_anchors_onto_one_target_collapse_to_one_pair() {
    let graph = BindingGraph::build(&[node("a", None, Vec::new()), node("f", None, vec!["a", "a"])]);
    let (_, reproject) = graph.propagation_closure(&["a".to_string()]);
    assert_eq!(reproject, vec![("f".to_string(), "a".to_string())]);
}

#[test]
fn unrelated_object_is_absent_from_the_closure() {
    let graph = BindingGraph::build(&[node("a", None, Vec::new()), node("z", None, Vec::new())]);
    let (same_delta, reproject) = graph.propagation_closure(&["a".to_string()]);
    assert_eq!(same_delta, vec!["a"]);
    assert!(reproject.is_empty());
    assert!(!same_delta.iter().any(|id| id == "z"));
}

#[test]
fn follower_that_also_moves_is_not_reprojected() {
    let graph = BindingGraph::build(&[node("a", None, Vec::new()), node("f", Some("a"), vec!["a"])]);
    let (same_delta, reproject) = graph.propagation_closure(&["a".to_string()]);
    assert_eq!(same_delta, vec!["a", "f"]);
    assert!(reproject.is_empty());
}

#[test]
fn default_graph_moves_only_the_roots() {
    let graph = BindingGraph::default();
    let (same_delta, reproject) = graph.propagation_closure(&["x".to_string(), "x".to_string()]);
    assert_eq!(same_delta, vec!["x"]);
    assert!(reproject.is_empty());
}
