use scene_core::apply::{
    add_shape_scene_comment, apply_render_patch_to_shape_scene, apply_scene_patch,
    update_shape_scene_comment, update_shape_scene_group_tags, Arrangement, Geometry,
};
use scene_core::envelope::{
    append_to_operation_log, create_operation_log, derive_target_ids, entries_by_actor,
    entries_by_target, synthesise_local_envelope, ActorType, OperationEnvelope,
};
use scene_core::model::{
    Bounds, EdgeType, NodeStatus, NodeType, Point, Scene, SceneEdge, SceneGroup, SceneNode,
    ScenePatch, SceneSelection, Size, Tag,
};
use scene_core::op::{
    AlignMode, Axis, EditField, ExtendedOpPatch, ExtendedRenderPatch, RenderCard, RenderGroup,
    RenderScenePatch, TargetKind,
};

fn bits(x: f64) -> u64 {
    x.to_bits()
}

fn num(b: u64) -> f64 {
    f64::from_bits(b)
}

fn add(a: u64, b: u64) -> u64 {
    (num(a) + num(b)).to_bits()
}

/// Align: every card to the smallest x (start) along X; distribute: keep order.
fn arrange(v: &Vec<(Point, Size)>, k: Arrangement) -> Vec<(usize, Point)> {
    match k {
        Arrangement::Align { axis: Axis::X, mode: AlignMode::Start } => {
            let min_x = v.iter().map(|(p, _)| num(p.x)).fold(f64::INFINITY, f64::min);
            v.iter()
                .enumerate()
                .map(|(i, (p, _))| (i, Point { x: bits(min_x), y: p.y }))
                .collect()
        }
        _ => v.iter().enumerate().map(|(i, (p, _))| (i, *p)).collect(),
    }
}

fn frame(v: &Vec<(Point, Size)>) -> Bounds {
    let min_x = v.iter().map(|(p, _)| num(p.x)).fold(f64::INFINITY, f64::min);
    let min_y = v.iter().map(|(p, _)| num(p.y)).fold(f64::INFINITY, f64::min);
    Bounds { x: bits(min_x - 40.0), y: bits(min_y - 40.0), width: bits(100.0), height: bits(100.0) }
}

type Geo = Geometry<fn(u64, u64) -> u64, fn(&Vec<(Point, Size)>, Arrangement) -> Vec<(usize, Point)>, fn(&Vec<(Point, Size)>) -> Bounds>;

fn geometry() -> Geo {
    Geometry { plus: add, arrange, frame }
}

fn group(id: &str, parent: Option<&str>) -> SceneGroup {
    SceneGroup {
        id: id.to_string(),
        parent_group_id: parent.map(|p| p.to_string()),
        title: id.to_string(),
        summary: String::new(),
        bounds: Bounds { x: bits(0.0), y: bits(0.0), width: bits(500.0), height: bits(500.0) },
        tag_ids: Vec::new(),
        z_index: bits(0.0),
        collapsed: false,
        created_at: "t0".to_string(),
        updated_at: "t0".to_string(),
        meta: None,
    }
}

fn node(id: &str, group_id: &str, x: f64) -> SceneNode {
    SceneNode {
        id: id.to_string(),
        node_type: NodeType::Option,
        title: format!("Title {id}"),
        summary: String::new(),
        detail: String::new(),
        status: NodeStatus::Draft,
        confidence: bits(0.5),
        evidence_refs: Vec::new(),
        child_decision_ids: Vec::new(),
        group_id: group_id.to_string(),
        position: Point { x: bits(x), y: bits(2.0) },
        size: Size { width: bits(100.0), height: bits(50.0) },
        z_index: bits(0.0),
        tag_ids: Vec::new(),
        updated_at: None,
        meta: None,
    }
}

fn edge(id: &str, group_id: &str, source: &str, target: &str) -> SceneEdge {
    SceneEdge {
        id: id.to_string(),
        edge_type: EdgeType::Supports,
        source: source.to_string(),
        target: target.to_string(),
        label: String::new(),
        rationale: String::new(),
        confidence: bits(0.5),
        group_id: group_id.to_string(),
        tag_ids: Vec::new(),
        updated_at: None,
        meta: None,
    }
}

fn tag(id: &str) -> Tag {
    Tag {
        id: id.to_string(),
        name: id.to_string(),
        color: "#fff".to_string(),
        description: String::new(),
        created_at: "t0".to_string(),
        updated_at: "t0".to_string(),
    }
}

fn scene() -> Scene {
    Scene {
        version: 1,
        scene_version: 7,
        groups: vec![group("g1", None), group("g2", Some("g1")), group("g3", None)],
        nodes: vec![node("a", "g1", 10.0), node("b", "g2", 30.0), node("c", "g3", 20.0)],
        edges: vec![edge("e1", "g1", "a", "b"), edge("e2", "g3", "c", "a")],
        tags: vec![tag("t1")],
        comments: vec![],
        artifacts: vec![],
        proposals: None,
        selection: SceneSelection::Canvas,
        updated_at: "t0".to_string(),
    }
}

fn ids<T>(v: &[T], f: impl Fn(&T) -> &String) -> Vec<String> {
    v.iter().map(|x| f(x).clone()).collect()
}

fn apply(s: &Scene, p: &RenderScenePatch) -> scene_core::apply::AppliedRenderPatch {
    apply_render_patch_to_shape_scene(s, p, "t1", None, &geometry())
}

#[test]
fn move_card_sets_position_and_selects_it() {
    let s = scene();
    let r = apply(&s, &RenderScenePatch::MoveCard { id: "b".to_string(), position: Point { x: bits(5.0), y: bits(6.0) } });
    assert!(r.errors.is_empty());
    assert_eq!(r.scene.scene_version, 8);
    assert_eq!(r.scene.updated_at, "t1");
    let b = r.scene.nodes.iter().find(|n| n.id == "b").unwrap();
    assert_eq!(num(b.position.x), 5.0);
    assert_eq!(b.updated_at.as_deref(), Some("t1"));
    assert_eq!(r.scene.selection, SceneSelection::Node { id: "b".to_string() });
    assert_eq!(ids(&r.scene.nodes, |n| &n.id), vec!["a", "b", "c"]);
    assert_eq!(r.envelope.operation_id, "op-t1-local");
    assert_eq!(r.envelope.base_revision, 7);
    assert_eq!(r.envelope.target_ids, vec!["b".to_string()]);
}

#[test]
fn unknown_card_is_refused_and_scene_unchanged() {
    let s = scene();
    let r = apply(&s, &RenderScenePatch::DeleteCard { id: "zz".to_string() });
    assert_eq!(r.errors, vec!["Unknown node id: zz".to_string()]);
    assert_eq!(r.scene, s);
    assert_eq!(r.app_patch, ScenePatch::default());
}

#[test]
fn create_edge_reports_every_problem_in_order() {
    let s = scene();
    let r = apply(
        &s,
        &RenderScenePatch::CreateEdge {
            group_id: "nope".to_string(),
            source: "x".to_string(),
            target: "x".to_string(),
            edge_id: "e1".to_string(),
            label: None,
        },
    );
    assert_eq!(
        r.errors,
        vec![
            "Edge source and target must differ".to_string(),
            "Unknown source node id: x".to_string(),
            "Unknown target node id: x".to_string(),
            "Unknown group id: nope".to_string(),
            "Duplicate edge id: e1".to_string(),
        ]
    );
}

#[test]
fn create_edge_defaults_label_and_confidence() {
    let s = scene();
    let r = apply(
        &s,
        &RenderScenePatch::CreateEdge {
            group_id: "g3".to_string(),
            source: "c".to_string(),
            target: "b".to_string(),
            edge_id: "e9".to_string(),
            label: None,
        },
    );
    assert!(r.errors.is_empty());
    let e = r.scene.edges.last().unwrap();
    assert_eq!(e.id, "e9");
    assert_eq!(e.label, "relates");
    assert_eq!(num(e.confidence), 0.5);
    assert_eq!(r.scene.selection, SceneSelection::Edge { id: "e9".to_string() });
}

#[test]
fn delete_group_cascades_to_subgroups_cards_and_edges() {
    let s = scene();
    let r = apply(&s, &RenderScenePatch::DeleteGroup { id: "g1".to_string() });
    assert!(r.errors.is_empty());
    assert_eq!(ids(&r.scene.groups, |g| &g.id), vec!["g3"]);
    assert_eq!(ids(&r.scene.nodes, |n| &n.id), vec!["c"]);
    assert!(r.scene.edges.is_empty());
    assert_eq!(r.app_patch.remove_group_ids, Some(vec!["g1".to_string(), "g2".to_string()]));
    assert_eq!(r.app_patch.remove_node_ids, Some(vec!["a".to_string(), "b".to_string()]));
    assert_eq!(r.app_patch.remove_edge_ids, Some(vec!["e1".to_string(), "e2".to_string()]));
}

#[test]
fn create_card_with_empty_title_and_unknown_kind() {
    let s = scene();
    let card = RenderCard {
        id: "n".to_string(),
        node_type: "mystery".to_string(),
        title: String::new(),
        summary: "s".to_string(),
        detail: String::new(),
        status: "viable".to_string(),
        group_id: "g3".to_string(),
        bounds: Bounds { x: bits(1.0), y: bits(2.0), width: bits(3.0), height: bits(4.0) },
        z_index: bits(0.0),
    };
    let r = apply(&s, &RenderScenePatch::CreateCard { card });
    assert!(r.errors.is_empty());
    let n = r.scene.nodes.last().unwrap();
    assert_eq!(n.title, "Untitled node");
    assert_eq!(n.node_type, NodeType::Task);
    assert_eq!(n.status, NodeStatus::Viable);
    assert_eq!(num(n.size.height), 4.0);
}

#[test]
fn create_group_with_zero_width_is_refused() {
    let s = scene();
    let g = RenderGroup {
        id: "g1".to_string(),
        title: String::new(),
        summary: String::new(),
        bounds: Bounds { x: bits(0.0), y: bits(0.0), width: bits(-0.0), height: bits(1.0) },
        tag_ids: vec![],
        z_index: bits(0.0),
    };
    let r = apply(&s, &RenderScenePatch::CreateGroup { group: g });
    assert_eq!(
        r.errors,
        vec!["Duplicate group id: g1".to_string(), "Group bounds must be positive".to_string()]
    );
}

#[test]
fn nan_bounds_are_not_refused() {
    let s = scene();
    let r = apply(
        &s,
        &RenderScenePatch::ResizeCard {
            id: "a".to_string(),
            bounds: Bounds { x: bits(0.0), y: bits(0.0), width: bits(f64::NAN), height: bits(1.0) },
        },
    );
    assert!(r.errors.is_empty());
}

#[test]
fn move_group_translates_group_and_its_cards() {
    let s = scene();
    let r = apply(&s, &RenderScenePatch::MoveGroup { id: "g1".to_string(), delta: Point { x: bits(1.5), y: bits(-2.0) } });
    assert!(r.errors.is_empty());
    let g1 = r.scene.groups.iter().find(|g| g.id == "g1").unwrap();
    assert_eq!(num(g1.bounds.x), 1.5);
    assert_eq!(num(g1.bounds.y), -2.0);
    let a = r.scene.nodes.iter().find(|n| n.id == "a").unwrap();
    assert_eq!(num(a.position.x), 11.5);
    let b = r.scene.nodes.iter().find(|n| n.id == "b").unwrap();
    assert_eq!(num(b.position.x), 30.0);
}

#[test]
fn align_uses_the_supplied_arrangement() {
    let s = scene();
    let r = apply(
        &s,
        &RenderScenePatch::AlignCards {
            ids: vec!["b".to_string(), "c".to_string()],
            axis: Axis::X,
            mode: AlignMode::Start,
        },
    );
    assert!(r.errors.is_empty());
    let b = r.scene.nodes.iter().find(|n| n.id == "b").unwrap();
    let c = r.scene.nodes.iter().find(|n| n.id == "c").unwrap();
    assert_eq!(num(b.position.x), 20.0);
    assert_eq!(num(c.position.x), 20.0);
    assert_eq!(r.scene.selection, SceneSelection::Canvas);
}

#[test]
fn align_needs_two_known_cards() {
    let s = scene();
    let r = apply(
        &s,
        &RenderScenePatch::AlignCards { ids: vec!["q".to_string()], axis: Axis::Y, mode: AlignMode::Center },
    );
    assert_eq!(
        r.errors,
        vec!["align-cards requires at least 2 ids".to_string(), "Unknown node id: q".to_string()]
    );
}

#[test]
fn duplicate_copies_cards_and_inner_edges() {
    let s = scene();
    let r = apply(
        &s,
        &RenderScenePatch::DuplicateObjects {
            ids: vec!["a".to_string(), "b".to_string()],
            delta: Point { x: bits(10.0), y: bits(0.0) },
        },
    );
    assert!(r.errors.is_empty());
    assert_eq!(ids(&r.scene.nodes, |n| &n.id), vec!["a", "b", "c", "a-dup-t1", "b-dup-t1"]);
    let e = r.scene.edges.last().unwrap();
    assert_eq!(e.id, "e1-dup-t1");
    assert_eq!(e.source, "a-dup-t1");
    assert_eq!(e.target, "b-dup-t1");
    let a2 = r.scene.nodes.iter().find(|n| n.id == "a-dup-t1").unwrap();
    assert_eq!(num(a2.position.x), 20.0);
    assert_eq!(r.scene.selection, SceneSelection::Node { id: "a-dup-t1".to_string() });
}

#[test]
fn group_objects_computes_bounds_and_reparents() {
    let s = scene();
    let r = apply(
        &s,
        &RenderScenePatch::GroupObjects {
            ids: vec!["c".to_string(), "g2".to_string()],
            frame_id: "f".to_string(),
            parent_group_id: None,
            title: None,
            bounds: None,
        },
    );
    assert!(r.errors.is_empty());
    let f = r.scene.groups.iter().find(|g| g.id == "f").unwrap();
    assert_eq!(f.title, "Group");
    assert_eq!(num(f.bounds.x), -20.0);
    let g2 = r.scene.groups.iter().find(|g| g.id == "g2").unwrap();
    assert_eq!(g2.parent_group_id.as_deref(), Some("f"));
    let c = r.scene.nodes.iter().find(|n| n.id == "c").unwrap();
    assert_eq!(c.group_id, "f");
}

#[test]
fn ungroup_moves_members_to_parent() {
    let s = scene();
    let r = apply(&s, &RenderScenePatch::Ungroup { id: "g2".to_string() });
    assert!(r.errors.is_empty());
    assert_eq!(ids(&r.scene.groups, |g| &g.id), vec!["g1", "g3"]);
    let b = r.scene.nodes.iter().find(|n| n.id == "b").unwrap();
    assert_eq!(b.group_id, "g1");
}

#[test]
fn ungroup_of_a_root_falls_back_to_the_first_other_group() {
    let s = scene();
    let r = apply(&s, &RenderScenePatch::Ungroup { id: "g3".to_string() });
    assert!(r.errors.is_empty());
    let c = r.scene.nodes.iter().find(|n| n.id == "c").unwrap();
    assert_eq!(c.group_id, "g1");
    let e2 = r.scene.edges.iter().find(|e| e.id == "e2").unwrap();
    assert_eq!(e2.group_id, "g1");
}

#[test]
fn set_object_group_and_tags() {
    let s = scene();
    let r = apply(&s, &RenderScenePatch::SetObjectGroup { ids: vec!["e2".to_string()], frame_id: "g1".to_string() });
    assert!(r.errors.is_empty());
    assert_eq!(r.scene.selection, SceneSelection::Edge { id: "e2".to_string() });
    let r2 = apply(
        &s,
        &RenderScenePatch::SetObjectTags {
            target_kind: TargetKind::Card,
            id: "a".to_string(),
            tag_ids: vec!["t1".to_string(), "t9".to_string()],
        },
    );
    assert_eq!(r2.errors, vec!["Unknown tag id: t9".to_string()]);
}

#[test]
fn batch_applies_in_turn_and_refuses_whole() {
    let s = scene();
    let ok = apply(
        &s,
        &RenderScenePatch::Batch {
            ops: vec![
                RenderScenePatch::EditCardText { id: "a".to_string(), field: EditField::Title, value: "A".to_string() },
                RenderScenePatch::DeleteCard { id: "c".to_string() },
            ],
        },
    );
    assert!(ok.errors.is_empty());
    assert_eq!(ok.scene.scene_version, 9);
    assert_eq!(ok.app_patch.remove_node_ids, Some(vec!["c".to_string()]));
    assert_eq!(ok.app_patch.remove_edge_ids, Some(vec!["e2".to_string()]));
    assert_eq!(ok.app_patch.nodes.as_ref().map(|v| v.len()), Some(1));
    let bad = apply(
        &s,
        &RenderScenePatch::Batch {
            ops: vec![
                RenderScenePatch::DeleteCard { id: "c".to_string() },
                RenderScenePatch::DeleteCard { id: "c".to_string() },
            ],
        },
    );
    assert_eq!(bad.errors, vec!["Unknown node id: c".to_string()]);
    assert_eq!(bad.scene, s);
}

#[test]
fn create_tag_appends_and_rejects_duplicates() {
    let s = scene();
    let r = apply(&s, &RenderScenePatch::CreateTag { tag: tag("t2") });
    assert!(r.errors.is_empty());
    assert_eq!(r.scene.tags.len(), 2);
    assert_eq!(r.scene.tags[1].updated_at, "t1");
    let dup = apply(&s, &RenderScenePatch::CreateTag { tag: tag("t1") });
    assert_eq!(dup.errors, vec!["Duplicate tag id: t1".to_string()]);
}

#[test]
fn select_multi_reports_first_unknown() {
    let s = scene();
    let r = apply(
        &s,
        &RenderScenePatch::Select {
            selection: SceneSelection::Multi { ids: vec!["a".to_string(), "x".to_string(), "y".to_string()] },
        },
    );
    assert_eq!(r.errors, vec!["Unknown node selection id: x".to_string()]);
}

#[test]
fn scene_patch_removal_cascades() {
    let s = scene();
    let p = ScenePatch { remove_group_ids: Some(vec!["g1".to_string()]), ..ScenePatch::default() };
    let r = apply_scene_patch(&s, &p, "t2", &add);
    assert_eq!(ids(&r.groups, |g| &g.id), vec!["g3"]);
    assert_eq!(ids(&r.nodes, |n| &n.id), vec!["c"]);
    assert!(r.edges.is_empty());
    assert_eq!(r.scene_version, 8);
}

#[test]
fn group_tags_update_and_errors() {
    let s = scene();
    let r = update_shape_scene_group_tags(&s, "g3", &["t1".to_string()], "t2");
    assert!(r.errors.is_empty());
    let g3 = r.scene.groups.iter().find(|g| g.id == "g3").unwrap();
    assert_eq!(g3.tag_ids, vec!["t1".to_string()]);
    assert_eq!(r.scene.selection, SceneSelection::Group { id: "g3".to_string() });
    let missing = update_shape_scene_group_tags(&s, "zz", &[], "t2");
    assert_eq!(missing.errors, vec!["Unknown group id: zz".to_string()]);
    let bad_tag = update_shape_scene_group_tags(&s, "g3", &["q".to_string()], "t2");
    assert_eq!(bad_tag.errors, vec!["Unknown tag id: q".to_string()]);
}

#[test]
fn comments_add_trimmed_and_update() {
    let s = scene();
    let empty = add_shape_scene_comment(&s, &SceneSelection::Canvas, " \t\n ", "t2");
    assert_eq!(empty.errors, vec!["Comment body is required".to_string()]);
    let bad = add_shape_scene_comment(&s, &SceneSelection::Node { id: "zz".to_string() }, "hi", "t2");
    assert_eq!(bad.errors, vec!["Unknown node selection id: zz".to_string()]);
    let r = add_shape_scene_comment(&s, &SceneSelection::Node { id: "a".to_string() }, "  hello\u{3000}", "t2");
    assert!(r.errors.is_empty());
    let c = r.comment.unwrap();
    assert_eq!(c.body, "hello");
    assert_eq!(c.id, "renderer-comment-t2");
    assert_eq!(c.author, "human");
    assert_eq!(r.scene.scene_version, 8);
    let u = update_shape_scene_comment(&r.scene, "renderer-comment-t2", None, Some(true), "t3");
    assert!(u.errors.is_empty());
    let uc = u.comment.unwrap();
    assert!(uc.resolved);
    assert_eq!(uc.body, "hello");
    assert_eq!(uc.updated_at, "t3");
    let missing = update_shape_scene_comment(&r.scene, "nope", Some("x"), None, "t3");
    assert_eq!(missing.errors, vec!["Comment not found: nope".to_string()]);
}

#[test]
fn target_ids_cover_every_kind() {
    let batch = ExtendedRenderPatch::Render(RenderScenePatch::Batch {
        ops: vec![
            RenderScenePatch::CreateEdge {
                group_id: "g".to_string(),
                source: "s".to_string(),
                target: "t".to_string(),
                edge_id: "e".to_string(),
                label: None,
            },
            RenderScenePatch::SetObjectGroup { ids: vec!["x".to_string()], frame_id: "f".to_string() },
        ],
    });
    assert_eq!(derive_target_ids(&batch), vec!["e", "s", "t", "f", "x"]);
    let comment = ExtendedRenderPatch::Extended(ExtendedOpPatch::AddComment {
        target: SceneSelection::Multi { ids: vec!["a".to_string(), "b".to_string()] },
        body: "b".to_string(),
    });
    assert_eq!(derive_target_ids(&comment), vec!["a", "b"]);
    let accept = ExtendedRenderPatch::Extended(ExtendedOpPatch::AcceptProposal { proposal_id: "p".to_string() });
    assert_eq!(derive_target_ids(&accept), vec!["p"]);
}

fn envelope(actor: &str, target: &str) -> OperationEnvelope {
    let mut e = synthesise_local_envelope(
        ExtendedRenderPatch::Render(RenderScenePatch::DeleteCard { id: target.to_string() }),
        3,
        "now",
    );
    e.actor_id = actor.to_string();
    e
}

#[test]
fn local_envelope_fields() {
    let e = envelope("human", "n1");
    assert_eq!(e.operation_id, "op-now-local");
    assert_eq!(e.actor_type, ActorType::Human);
    assert_eq!(e.client_id, "local-shell");
    assert_eq!(e.timestamp, "now");
    assert_eq!(e.base_revision, 3);
    assert_eq!(e.target_ids, vec!["n1".to_string()]);
    assert!(e.source_tool_call.is_none());
}

#[test]
fn operation_log_appends_and_filters() {
    let log = create_operation_log();
    let l1 = append_to_operation_log(&log, envelope("alice", "n1"));
    let l2 = append_to_operation_log(&l1, envelope("bob", "n2"));
    let l3 = append_to_operation_log(&l2, envelope("alice", "n2"));
    assert!(log.entries.is_empty());
    assert_eq!(l1.entries.len(), 1);
    assert_eq!(l3.entries.len(), 3);
    let by_alice = entries_by_actor(&l3, "alice");
    assert_eq!(by_alice.len(), 2);
    assert_eq!(by_alice[1].target_ids, vec!["n2".to_string()]);
    let on_n2 = entries_by_target(&l3, "n2");
    assert_eq!(on_n2.iter().map(|e| e.actor_id.as_str()).collect::<Vec<_>>(), vec!["bob", "alice"]);
}
