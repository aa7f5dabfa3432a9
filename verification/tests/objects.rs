use scene_core::object::apply::{apply_object_op, apply_sequence, ApplyError};
use scene_core::object::authoring::drawing::split_subpath_at;
use scene_core::object::authoring::primitives::{
    build_set_style_op, paint_for_color, PrimitiveKind, THEME_DEFAULT_COLOR,
};
use scene_core::object::binding::anchors::{
    connection_graph, neighbors, reproject_object_anchors, resolve_endpoint, FLATNESS,
};
use scene_core::object::binding::grouping::{
    double_click_action, group_ops, has_children, object_selection_in_scope, pop_out_op, ungroup_enabled,
    ungroup_ops, DoubleClickAction,
};
use scene_core::key_order::cmp_keys;
use scene_core::object::anchor_follow::number_spans;
use scene_core::object::model::{Align, CrossAlign, Lanes, Layout, LayoutAxis, MainAlign};
use scene_core::object::binding::region::{point_in_polygon, OutlineDeriver, StubOutlineDeriver};
use scene_core::object::model::{
    Anchor, Comment, Fill, FillRule, Geometry, LocalPoint, Object, ObjectScene, ObjectSelection,
    Paint, PathNode, SubPath, Transform3x3, GEOMETRY_QUANTUM_PER_PX,
};
use scene_core::object::op::{FieldEdit, ObjectOp};

fn translate(tx: f64, ty: f64) -> Transform3x3 {
    let one = 1f64.to_bits();
    let zero = 0f64.to_bits();
    Transform3x3 { m: [[one, zero, tx.to_bits()], [zero, one, ty.to_bits()], [zero, zero, one]] }
}

fn obj(id: &str, parent: Option<&str>, order: &str) -> Object {
    let geometry = Geometry::from_subpaths(
        vec![SubPath { closed: false, nodes: vec![PathNode::corner(0, 0), PathNode::corner(8, 0)] }],
        FillRule::EvenOdd,
    );
    let mut o = Object::new(id, order, geometry);
    o.parent = parent.map(|p| p.to_string());
    o
}

fn scene_of(objects: Vec<Object>) -> ObjectScene {
    ObjectScene { objects, ..Default::default() }
}

fn nested_scene() -> ObjectScene {
    scene_of(vec![
        obj("root", None, "a0"),
        obj("mid", Some("root"), "a0"),
        obj("deep", Some("mid"), "a0"),
        obj("top", None, "a0"),
    ])
}

#[test]
fn pop_out_reparents_to_grandparent() {
    let scene = nested_scene();
    assert_eq!(
        pop_out_op(&scene, "deep"),
        Some(ObjectOp::Reparent { id: "deep".into(), parent: Some("root".into()), order: "a0".into() })
    );
}

#[test]
fn pop_out_reparents_to_root_when_parent_at_root() {
    let scene = nested_scene();
    assert_eq!(
        pop_out_op(&scene, "mid"),
        Some(ObjectOp::Reparent { id: "mid".into(), parent: None, order: "a0".into() })
    );
}

#[test]
fn pop_out_is_none_for_root_level_or_unknown() {
    let scene = nested_scene();
    assert_eq!(pop_out_op(&scene, "top"), None);
    assert_eq!(pop_out_op(&scene, "ghost"), None);
}

#[test]
fn pop_out_preserves_order_key() {
    let scene = scene_of(vec![
        obj("root", None, "a0"),
        obj("mid", Some("root"), "a0"),
        obj("deep", Some("mid"), "Zz9"),
    ]);
    let op = pop_out_op(&scene, "deep").expect("pop out");
    assert_eq!(op, ObjectOp::Reparent { id: "deep".into(), parent: Some("root".into()), order: "Zz9".into() });
}

#[test]
fn has_children_truth_table() {
    let scene = scene_of(vec![obj("frame", None, "a0"), obj("child", Some("frame"), "a0"), obj("leaf", None, "a0")]);
    assert!(has_children(&scene, "frame"), "a container has children");
    assert!(!has_children(&scene, "leaf"), "a childless leaf does not");
    assert!(!has_children(&scene, "ghost"), "an unknown id has no children");
}

#[test]
fn ungroup_enabled_truth_table() {
    let scene = scene_of(vec![obj("frame", None, "a0"), obj("child", Some("frame"), "a0"), obj("leaf", None, "a0")]);
    assert!(ungroup_enabled(&scene, Some("frame")), "a container is ungroupable");
    assert!(!ungroup_enabled(&scene, Some("leaf")), "a childless leaf is not");
    assert!(!ungroup_enabled(&scene, None), "no selection is not ungroupable");
}

#[test]
fn object_selection_in_scope_membership_table() {
    let scene = scene_of(vec![obj("frame", None, "a0"), obj("child", Some("frame"), "a0"), obj("leaf", None, "a0")]);
    let object = |id: &str| ObjectSelection::Object { id: id.into() };
    assert!(object_selection_in_scope(&scene, &object("frame"), "frame"));
    assert!(object_selection_in_scope(&scene, &object("child"), "frame"));
    assert!(!object_selection_in_scope(&scene, &object("leaf"), "frame"));
    assert!(!object_selection_in_scope(&scene, &object("ghost"), "frame"));
    assert!(!object_selection_in_scope(&scene, &ObjectSelection::Canvas, "frame"));
    assert!(!object_selection_in_scope(&scene, &ObjectSelection::Multi { ids: vec!["child".into()] }, "frame"));
}

#[test]
fn double_click_action_container_vs_leaf() {
    let scene = scene_of(vec![obj("frame", None, "a0"), obj("child", Some("frame"), "a0"), obj("leaf", None, "a0")]);
    assert_eq!(double_click_action(&scene, "frame"), DoubleClickAction::DrillInContainer);
    assert_eq!(double_click_action(&scene, "leaf"), DoubleClickAction::EditLeaf);
    assert_eq!(double_click_action(&scene, "ghost"), DoubleClickAction::EditLeaf);
}

fn rect(id: &str, order: &str, tx: f64, ty: f64, w: i32, h: i32) -> Object {
    let q = GEOMETRY_QUANTUM_PER_PX;
    let geometry = Geometry::from_subpaths(
        vec![SubPath {
            closed: true,
            nodes: vec![
                PathNode::corner(0, 0),
                PathNode::corner(w * q, 0),
                PathNode::corner(w * q, h * q),
                PathNode::corner(0, h * q),
            ],
        }],
        FillRule::NonZero,
    );
    let mut o = Object::new(id, order, geometry);
    o.transform = translate(tx, ty);
    o
}

fn parse_scene(scene: &mut ObjectScene) {
    for o in scene.objects.iter_mut() {
        o.geometry.ensure_parsed().unwrap();
    }
}

#[test]
fn ungroup_ops_reparents_all_children_to_grandparent_and_deletes_the_frame() {
    let mut a = rect("a", "a0", 0.0, 0.0, 10, 10);
    a.parent = Some("frame".into());
    let mut b = rect("b", "a1", 20.0, 0.0, 10, 10);
    b.parent = Some("frame".into());
    let mut frame = rect("frame", "a0", 0.0, 0.0, 40, 10);
    frame.parent = Some("root".into());
    let scene = scene_of(vec![rect("root", "a0", 0.0, 0.0, 80, 80), frame, a, b]);

    let ops = ungroup_ops(&scene, "frame").expect("ungroup authors ops");
    assert_eq!(ops.len(), 3);
    assert_eq!(ops[0], ObjectOp::Reparent { id: "a".into(), parent: Some("root".into()), order: "a0".into() });
    assert_eq!(ops[1], ObjectOp::Reparent { id: "b".into(), parent: Some("root".into()), order: "a1".into() });
    assert_eq!(ops[2], ObjectOp::Delete { id: "frame".into() });

    let mut applied = scene.clone();
    parse_scene(&mut applied);
    for op in ops {
        apply_object_op(&mut applied, op).expect("ungroup op applies");
    }
    assert!(applied.get("frame").is_none(), "empty frame deleted");
    assert_eq!(applied.get("a").unwrap().parent.as_deref(), Some("root"));
    assert_eq!(applied.get("b").unwrap().parent.as_deref(), Some("root"));
    assert!(applied.objects.iter().all(|o| o.parent.as_deref() != Some("frame")));
}

#[test]
fn ungroup_ops_reparents_root_frame_children_to_the_canvas_root() {
    let mut a = rect("a", "a0", 0.0, 0.0, 10, 10);
    a.parent = Some("frame".into());
    let mut frame = rect("frame", "a0", 0.0, 0.0, 20, 10);
    frame.parent = None;
    let scene = scene_of(vec![frame, a]);
    let ops = ungroup_ops(&scene, "frame").expect("ops");
    assert_eq!(ops[0], ObjectOp::Reparent { id: "a".into(), parent: None, order: "a0".into() });
}

#[test]
fn ungroup_ops_is_none_for_unknown_frame() {
    let scene = scene_of(vec![rect("a", "a0", 0.0, 0.0, 10, 10)]);
    assert!(ungroup_ops(&scene, "ghost").is_none());
}

#[test]
fn ungroup_ops_lists_children_in_paint_order() {
    let mut c = obj("c", Some("f"), "a1");
    c.parent = Some("f".into());
    let scene = scene_of(vec![obj("f", None, "a0"), c, obj("b", Some("f"), "a0"), obj("a", Some("f"), "a1")]);
    let ops = ungroup_ops(&scene, "f").unwrap();
    let ids: Vec<String> = ops
        .iter()
        .map(|op| match op {
            ObjectOp::Reparent { id, .. } | ObjectOp::Delete { id } => id.clone(),
            other => panic!("unexpected {}", other.kind()),
        })
        .collect();
    assert_eq!(ids, vec!["b", "a", "c", "f"]);
}

// --- anchors -------------------------------------------------------------

fn rect_geom(x0: i32, y0: i32, x1: i32, y1: i32) -> Geometry {
    Geometry::from_subpaths(
        vec![SubPath {
            closed: true,
            nodes: vec![
                PathNode::corner(x0, y0),
                PathNode::corner(x1, y0),
                PathNode::corner(x1, y1),
                PathNode::corner(x0, y1),
            ],
        }],
        FillRule::EvenOdd,
    )
}

fn connector(ax: i32, ay: i32, bx: i32, by: i32) -> Geometry {
    Geometry::from_subpaths(
        vec![SubPath { closed: false, nodes: vec![PathNode::corner(ax, ay), PathNode::corner(bx, by)] }],
        FillRule::EvenOdd,
    )
}

fn scene_with_edge() -> ObjectScene {
    let mut rect_a = Object::new("rect-a", "a0", rect_geom(0, 0, 80, 40));
    rect_a.geometry.ensure_parsed().unwrap();
    let mut rect_b = Object::new("rect-b", "a1", rect_geom(200, 0, 280, 40));
    rect_b.geometry.ensure_parsed().unwrap();
    let mut edge = Object::new("edge", "a2", connector(40, 20, 240, 20));
    edge.geometry.ensure_parsed().unwrap();
    edge.anchors = vec![
        Anchor { node_index: 0, target: "rect-a".into(), at: LocalPoint { x: 78, y: 22 } },
        Anchor { node_index: 1, target: "rect-b".into(), at: LocalPoint { x: 202, y: 18 } },
    ];
    ObjectScene {
        scene_version: 1,
        objects: vec![rect_a, rect_b, edge],
        tags: Vec::new(),
        selection: ObjectSelection::Canvas,
        updated_at: String::new(),
    }
}

fn edge_mut(scene: &mut ObjectScene) -> &mut Object {
    let i = scene.position("edge").unwrap();
    &mut scene.objects[i]
}

fn on_outline(deriver: &StubOutlineDeriver, obj: &Object, p: LocalPoint) -> bool {
    let region = deriver.derive_region(&obj.geometry, FLATNESS).unwrap();
    region.outline.contains(&p)
}

#[test]
fn resolve_endpoint_projects_onto_target_outline() {
    let deriver = StubOutlineDeriver;
    let scene = scene_with_edge();
    let edge = scene.get("edge").unwrap();
    let rect_a = scene.get("rect-a").unwrap();
    let ep = resolve_endpoint(&deriver, edge, &edge.anchors[0], rect_a).unwrap();
    assert!(on_outline(&deriver, rect_a, ep));
    assert_eq!(ep, LocalPoint { x: 80, y: 40 });
}

#[test]
fn reproject_object_anchors_returns_endpoints_on_targets() {
    let deriver = StubOutlineDeriver;
    let scene = scene_with_edge();
    let reprojected = reproject_object_anchors(&deriver, &scene, "edge");
    assert_eq!(reprojected.len(), 2, "both anchors reproject");
    assert_eq!(reprojected[0].0, 0);
    assert_eq!(reprojected[1].0, 1);
    let rect_a = scene.get("rect-a").unwrap();
    let rect_b = scene.get("rect-b").unwrap();
    assert!(on_outline(&deriver, rect_a, reprojected[0].1));
    assert!(on_outline(&deriver, rect_b, reprojected[1].1));
}

#[test]
fn reproject_skips_missing_targets() {
    let deriver = StubOutlineDeriver;
    let mut scene = scene_with_edge();
    edge_mut(&mut scene).anchors[1].target = "ghost".into();
    let reprojected = reproject_object_anchors(&deriver, &scene, "edge");
    assert_eq!(reprojected.len(), 1, "the dangling anchor is dropped");
    assert_eq!(reprojected[0].0, 0);
}

#[test]
fn connection_graph_yields_the_connected_target_pair() {
    let scene = scene_with_edge();
    assert_eq!(connection_graph(&scene), vec![("rect-a".to_string(), "rect-b".to_string())]);
}

#[test]
fn connection_graph_emits_single_anchor_attachment() {
    let mut scene = scene_with_edge();
    edge_mut(&mut scene).anchors.truncate(1);
    assert_eq!(connection_graph(&scene), vec![("edge".to_string(), "rect-a".to_string())]);
}

#[test]
fn neighbors_query_by_target() {
    let scene = scene_with_edge();
    assert_eq!(neighbors(&scene, "rect-a"), vec!["rect-b".to_string()]);
    assert_eq!(neighbors(&scene, "rect-b"), vec!["rect-a".to_string()]);
    assert!(neighbors(&scene, "edge").is_empty());
}

#[test]
fn duplicate_targets_collapse_to_no_self_pair() {
    let mut scene = scene_with_edge();
    edge_mut(&mut scene).anchors[1].target = "rect-a".into();
    assert_eq!(connection_graph(&scene), vec![("edge".to_string(), "rect-a".to_string())]);
}

#[test]
fn three_targets_give_every_pair() {
    let mut scene = scene_with_edge();
    scene.objects.push(Object::new("rect-c", "a3", rect_geom(0, 100, 10, 110)));
    edge_mut(&mut scene).anchors.push(Anchor { node_index: 1, target: "rect-c".into(), at: LocalPoint { x: 0, y: 0 } });
    assert_eq!(
        connection_graph(&scene),
        vec![
            ("rect-a".to_string(), "rect-b".to_string()),
            ("rect-a".to_string(), "rect-c".to_string()),
            ("rect-b".to_string(), "rect-c".to_string()),
        ]
    );
}

#[test]
fn point_in_polygon_even_odd() {
    let square = [
        LocalPoint { x: 0, y: 0 },
        LocalPoint { x: 10, y: 0 },
        LocalPoint { x: 10, y: 10 },
        LocalPoint { x: 0, y: 10 },
    ];
    assert!(point_in_polygon(&square, LocalPoint { x: 5, y: 5 }));
    assert!(!point_in_polygon(&square, LocalPoint { x: 15, y: 5 }));
    assert!(!point_in_polygon(&square[..2], LocalPoint { x: 5, y: 0 }));
}

// --- drawing ---------------------------------------------------------------

#[test]
fn split_subpath_cuts_at_nearest_node_into_two_open_pieces() {
    let geometry = Geometry::from_subpaths(
        vec![SubPath {
            closed: false,
            nodes: vec![
                PathNode::corner(0, 0),
                PathNode::corner(10, 0),
                PathNode::corner(20, 0),
                PathNode::corner(30, 0),
                PathNode::corner(40, 0),
            ],
        }],
        FillRule::NonZero,
    );
    let cut = split_subpath_at(&geometry, 21, 1, 8).expect("a node is within radius");
    assert_eq!(cut.subpaths.len(), 2);
    assert!(cut.subpaths.iter().all(|sp| !sp.closed), "pieces are open");
    assert_eq!(cut.subpaths[0].nodes.len(), 2);
    assert_eq!(cut.subpaths[1].nodes.len(), 2);
    assert_eq!((cut.subpaths[0].nodes[0].x, cut.subpaths[0].nodes[1].x), (0, 10));
    assert_eq!((cut.subpaths[1].nodes[0].x, cut.subpaths[1].nodes[1].x), (30, 40));
    assert_eq!(cut.path_string, "M 0 0 L 10 0 M 30 0 L 40 0");
}

#[test]
fn split_subpath_drops_degenerate_endpoint_pieces() {
    let geometry = Geometry::from_subpaths(
        vec![SubPath { closed: false, nodes: vec![PathNode::corner(0, 0), PathNode::corner(10, 0), PathNode::corner(20, 0)] }],
        FillRule::NonZero,
    );
    let cut = split_subpath_at(&geometry, 0, 0, 8).expect("the first node is within radius");
    assert_eq!(cut.subpaths.len(), 1);
    assert_eq!(cut.subpaths[0].nodes.len(), 2);
    assert_eq!(cut.subpaths[0].nodes[0].x, 10);
}

#[test]
fn split_subpath_returns_none_when_touch_misses_all_nodes() {
    let geometry = Geometry::from_subpaths(
        vec![SubPath { closed: false, nodes: vec![PathNode::corner(0, 0), PathNode::corner(10, 0)] }],
        FillRule::NonZero,
    );
    assert!(split_subpath_at(&geometry, 500, 500, 8).is_none());
}

#[test]
fn split_subpath_leaves_other_subpaths_untouched() {
    let geometry = Geometry::from_subpaths(
        vec![
            SubPath { closed: false, nodes: vec![PathNode::corner(0, 0), PathNode::corner(10, 0)] },
            SubPath {
                closed: false,
                nodes: vec![PathNode::corner(0, 50), PathNode::corner(10, 50), PathNode::corner(20, 50)],
            },
        ],
        FillRule::NonZero,
    );
    let cut = split_subpath_at(&geometry, 10, 50, 8).expect("middle node within radius");
    assert_eq!(cut.subpaths.len(), 1);
    assert_eq!(cut.subpaths[0].nodes.len(), 2);
    assert_eq!((cut.subpaths[0].nodes[0].y, cut.subpaths[0].nodes[1].y), (0, 0));
}

// --- primitives ------------------------------------------------------------

fn obj_with(geometry_d: &str, fill: Option<Fill>, stroke: Option<scene_core::object::model::Stroke>) -> Object {
    let mut o = Object::new(
        "o1",
        "a0",
        Geometry { path_string: geometry_d.to_string(), fill_rule: FillRule::NonZero, subpaths: Vec::new() },
    );
    o.fill = fill;
    o.stroke = stroke;
    o
}

#[test]
fn set_style_gives_a_styleless_object_a_fill() {
    let o = obj_with("M 0 0 L 8 0 L 8 8 Z", None, None);
    let op = build_set_style_op(&o, "#abcdef");
    let ObjectOp::SetStyle { fill, stroke, .. } = op else { panic!("set-style") };
    assert!(stroke.is_none());
    let FieldEdit::SetTo { value: f } = fill.unwrap() else { panic!("fill set") };
    assert_eq!(f.paint, Paint::Solid { color: "#abcdef".into() });
    assert_eq!(f.opacity, 1.0f64.to_bits());
}

#[test]
fn set_style_routes_open_class_color_to_stroke() {
    let o = obj_with("M 0 0 L 8 0", Some(Fill { paint: Paint::Solid { color: "#000000".into() }, opacity: 1.0f64.to_bits() }), None);
    let op = build_set_style_op(&o, "#abcdef");
    let ObjectOp::SetStyle { fill, stroke, .. } = op else { panic!("set-style") };
    assert!(fill.is_none());
    let FieldEdit::SetTo { value: s } = stroke.unwrap() else { panic!("stroke set") };
    assert_eq!(s.paint, Paint::Solid { color: "#abcdef".into() });
    assert_eq!(s.width, 16);
}

#[test]
fn theme_default_color_maps_to_the_text_token() {
    assert_eq!(paint_for_color(THEME_DEFAULT_COLOR), Paint::Token { name: "text".into() });
    assert_eq!(paint_for_color("#123456"), Paint::Solid { color: "#123456".into() });
    assert_eq!(PrimitiveKind::from_str("ellipse"), Some(PrimitiveKind::Ellipse));
    assert_eq!(PrimitiveKind::from_str("Ellipse"), None);
}

// --- apply and undo ----------------------------------------------------------

#[test]
fn insert_then_undo_restores_the_scene() {
    let mut scene = scene_of(vec![obj("a", None, "a0")]);
    let before = scene.clone();
    let inv = apply_object_op(&mut scene, ObjectOp::InsertObject { object: obj("b", None, "a1") }).unwrap();
    assert_eq!(scene.objects.len(), 2);
    assert_eq!(scene.scene_version, 1);
    assert_eq!(inv, ObjectOp::Delete { id: "b".into() });
    apply_object_op(&mut scene, inv).unwrap();
    assert_eq!(scene.objects, before.objects);
    assert_eq!(scene.scene_version, 2);
}

#[test]
fn insert_rejects_duplicate_id_and_bad_geometry() {
    let mut scene = scene_of(vec![obj("a", None, "a0")]);
    assert_eq!(
        apply_object_op(&mut scene, ObjectOp::InsertObject { object: obj("a", None, "a1") }),
        Err(ApplyError::DuplicateId("a".into()))
    );
    let bad = Object::new("b", "a1", Geometry { path_string: "M 0 x".into(), fill_rule: FillRule::NonZero, subpaths: vec![] });
    assert_eq!(
        apply_object_op(&mut scene, ObjectOp::InsertObject { object: bad }),
        Err(ApplyError::BadGeometry("malformed path data".into()))
    );
    assert_eq!(scene.scene_version, 0, "errors leave the scene untouched");
    assert_eq!(scene.objects.len(), 1);
}

#[test]
fn delete_prunes_peer_anchors_and_undo_restores_them() {
    let mut scene = scene_with_edge();
    let inv = apply_object_op(&mut scene, ObjectOp::Delete { id: "rect-a".into() }).unwrap();
    assert!(scene.get("rect-a").is_none());
    assert_eq!(scene.get("edge").unwrap().anchors.len(), 1);
    match &inv {
        ObjectOp::Batch { ops } => {
            assert_eq!(ops.len(), 2);
            assert_eq!(ops[0].kind(), "insert-object");
            assert_eq!(ops[1].kind(), "set-anchor");
        }
        other => panic!("expected batch, got {}", other.kind()),
    }
    apply_object_op(&mut scene, inv).unwrap();
    assert_eq!(scene.get("edge").unwrap().anchors.len(), 2);
    assert!(scene.get("rect-a").is_some());
}

#[test]
fn reparent_refuses_a_cycle() {
    let mut scene = nested_scene();
    let r = apply_object_op(&mut scene, ObjectOp::Reparent { id: "root".into(), parent: Some("deep".into()), order: "a0".into() });
    assert_eq!(r, Err(ApplyError::Cycle("root".into())));
    let r = apply_object_op(&mut scene, ObjectOp::Reparent { id: "root".into(), parent: Some("root".into()), order: "a0".into() });
    assert_eq!(r, Err(ApplyError::Cycle("root".into())));
}

#[test]
fn set_anchor_requires_live_targets() {
    let mut scene = scene_with_edge();
    let r = apply_object_op(
        &mut scene,
        ObjectOp::SetAnchor {
            id: "edge".into(),
            anchors: vec![Anchor { node_index: 0, target: "ghost".into(), at: LocalPoint { x: 0, y: 0 } }],
        },
    );
    assert_eq!(r, Err(ApplyError::MissingAnchorTarget("ghost".into())));
}

#[test]
fn batch_is_atomic_and_undoes_in_reverse() {
    let mut scene = scene_of(vec![obj("a", None, "a0")]);
    let failing = ObjectOp::Batch {
        ops: vec![ObjectOp::Reorder { id: "a".into(), order: "b0".into() }, ObjectOp::Delete { id: "ghost".into() }],
    };
    assert_eq!(apply_object_op(&mut scene, failing), Err(ApplyError::NotFound("ghost".into())));
    assert_eq!(scene.get("a").unwrap().order, "a0", "a failing batch commits nothing");

    let ok = ObjectOp::Batch {
        ops: vec![
            ObjectOp::Reorder { id: "a".into(), order: "b0".into() },
            ObjectOp::AddComment {
                id: "a".into(),
                comment: Comment { id: "c1".into(), author: "me".into(), body: "hi".into(), created_at: "t".into() },
            },
        ],
    };
    let inv = apply_object_op(&mut scene, ok).unwrap();
    assert_eq!(scene.get("a").unwrap().order, "b0");
    assert_eq!(scene.get("a").unwrap().comments.len(), 1);
    match &inv {
        ObjectOp::Batch { ops } => {
            assert_eq!(ops[0].kind(), "set-comments");
            assert_eq!(ops[1].kind(), "reorder");
        }
        other => panic!("expected batch, got {}", other.kind()),
    }
    apply_object_op(&mut scene, inv).unwrap();
    assert_eq!(scene.get("a").unwrap().order, "a0");
    assert!(scene.get("a").unwrap().comments.is_empty());
}

#[test]
fn apply_sequence_returns_inverses_last_first() {
    let mut scene = scene_of(vec![obj("a", None, "a0")]);
    let invs = apply_sequence(
        &mut scene,
        vec![
            ObjectOp::Reorder { id: "a".into(), order: "b0".into() },
            ObjectOp::SetClip { id: "a".into(), clip: Some(true) },
        ],
    )
    .unwrap();
    assert_eq!(scene.scene_version, 2);
    assert_eq!(invs[0], ObjectOp::SetClip { id: "a".into(), clip: None });
    assert_eq!(invs[1], ObjectOp::Reorder { id: "a".into(), order: "a0".into() });
    let undo = apply_sequence(&mut scene, invs).unwrap();
    assert_eq!(undo.len(), 2);
    assert_eq!(scene.get("a").unwrap().order, "a0");
    assert_eq!(scene.get("a").unwrap().clip, None);
}

#[test]
fn unsupported_ops_are_refused() {
    let mut scene = scene_of(vec![obj("a", None, "a0")]);
    assert_eq!(
        apply_object_op(&mut scene, ObjectOp::Split { id: "a".into() }),
        Err(ApplyError::Unsupported("split (OB3.S3)"))
    );
    assert_eq!(ApplyError::NotFound("x".into()).message(), "object not found: x");
}

#[test]
fn path_text_round_trips_through_the_parser() {
    let g = Geometry::from_subpaths(
        vec![SubPath {
            closed: true,
            nodes: vec![PathNode::corner(0, 0), PathNode::corner(-8, 16), PathNode::corner(8, 8)],
        }],
        FillRule::NonZero,
    );
    assert_eq!(g.path_string, "M 0 0 L -8 16 L 8 8 Z");
    let mut parsed = Geometry { path_string: g.path_string.clone(), fill_rule: FillRule::NonZero, subpaths: vec![] };
    parsed.ensure_parsed().unwrap();
    assert_eq!(parsed.subpaths, g.subpaths);
}

#[test]
fn anchor_follow_polyline_parses_into_subpaths() {
    let mut g = Geometry {
        path_string: "M 0 0 L 80 0".to_string(),
        fill_rule: FillRule::EvenOdd,
        subpaths: Vec::new(),
    };
    g.ensure_parsed().unwrap();
    assert_eq!(g.subpaths.len(), 1);
    assert_eq!(g.subpaths[0], SubPath { closed: false, nodes: g.subpaths[0].nodes.clone() });
}

#[test]
fn deleting_the_last_object_undoes_exactly() {
    // Move `rect-a` to the end so that it is the last object, with `edge`
    // anchored onto it.
    let mut scene = scene_with_edge();
    let a = scene.objects.remove(0);
    scene.objects.push(a);
    let before = scene.objects.clone();
    let inv = apply_object_op(&mut scene, ObjectOp::Delete { id: "rect-a".into() }).unwrap();
    assert_eq!(scene.get("edge").unwrap().anchors.len(), 1);
    apply_object_op(&mut scene, inv).unwrap();
    assert_eq!(scene.objects, before);
}

#[test]
fn deleting_an_earlier_object_undoes_to_the_end() {
    let mut scene = scene_of(vec![obj("a", None, "a0"), obj("b", None, "a1")]);
    let inv = apply_object_op(&mut scene, ObjectOp::Delete { id: "a".into() }).unwrap();
    apply_object_op(&mut scene, inv).unwrap();
    let ids: Vec<&str> = scene.objects.iter().map(|o| o.id.as_str()).collect();
    assert_eq!(ids, vec!["b", "a"], "the re-insert appends");
}

#[test]
fn reparent_undoes_back_to_the_root() {
    let mut scene = nested_scene();
    let before = scene.objects.clone();
    let inv = apply_object_op(&mut scene, ObjectOp::Reparent { id: "top".into(), parent: Some("deep".into()), order: "b5".into() }).unwrap();
    assert_eq!(inv, ObjectOp::Reparent { id: "top".into(), parent: None, order: "a0".into() });
    apply_object_op(&mut scene, inv).unwrap();
    assert_eq!(scene.objects, before);
}

#[test]
fn a_mixed_batch_without_deletes_undoes_exactly() {
    let mut scene = scene_with_edge();
    let before = scene.objects.clone();
    let mut c = Object::new("c", "a3", rect_geom(0, 100, 40, 140));
    c.geometry.ensure_parsed().unwrap();
    let batch = ObjectOp::Batch {
        ops: vec![
            ObjectOp::InsertObject { object: c },
            ObjectOp::Reparent { id: "edge".into(), parent: Some("c".into()), order: "a0".into() },
            ObjectOp::SetAnchor {
                id: "edge".into(),
                anchors: vec![Anchor { node_index: 0, target: "c".into(), at: LocalPoint { x: 0, y: 0 } }],
            },
        ],
    };
    let inv = apply_object_op(&mut scene, batch).unwrap();
    assert_eq!(scene.objects.len(), 4);
    apply_object_op(&mut scene, inv).unwrap();
    assert_eq!(scene.objects, before);
    assert_eq!(scene.scene_version, 3);
}

#[test]
fn a_batch_that_deletes_undoes_to_the_same_objects() {
    let mut scene = scene_with_edge();
    let before = scene.objects.clone();
    let batch = ObjectOp::Batch {
        ops: vec![
            ObjectOp::Reorder { id: "rect-b".into(), order: "a7".into() },
            ObjectOp::Delete { id: "rect-a".into() },
            ObjectOp::Reorder { id: "edge".into(), order: "a9".into() },
        ],
    };
    let inv = apply_object_op(&mut scene, batch).unwrap();
    assert_eq!(scene.objects.len(), 2);
    assert!(scene.objects[1].anchors.iter().all(|a| a.target != "rect-a"));
    apply_object_op(&mut scene, inv).unwrap();
    assert_eq!(scene.scene_version, 3);
    assert_eq!(scene.objects.len(), before.len());
    for o in &before {
        assert!(scene.objects.contains(o), "{} comes back as it was", o.id);
    }
    let ids: Vec<&str> = scene.objects.iter().map(|o| o.id.as_str()).collect();
    assert_eq!(ids, vec!["rect-b", "edge", "rect-a"], "the re-insert appends");
}

/// The frame of a group: the union of the members' world-space path extents
/// (every coordinate of the path text, under the object's transform) as a
/// rect path from the local origin, placed at the union's min corner, flowing
/// along the wider spread. `None` when no member has a coordinate.
fn frame_of(members: &Vec<Object>) -> Option<(String, Transform3x3, LayoutAxis)> {
    let q = f64::from(GEOMETRY_QUANTUM_PER_PX);
    let mut union: Option<(f64, f64, f64, f64)> = None;
    for m in members {
        let d = &m.geometry.path_string;
        let chars: Vec<char> = d.chars().collect();
        let c: Vec<f64> = number_spans(d)
            .iter()
            .map(|s| chars[s.0..s.1].iter().collect::<String>().parse().unwrap_or(0.0))
            .collect();
        let t: Vec<f64> = m.transform.m.iter().flatten().map(|b| f64::from_bits(*b)).collect();
        for p in c.chunks(2).filter(|p| p.len() == 2) {
            let (x, y) = (p[0] / q, p[1] / q);
            let (wx, wy) = (t[0] * x + t[1] * y + t[2], t[3] * x + t[4] * y + t[5]);
            union = Some(match union {
                None => (wx, wy, wx, wy),
                Some((x0, y0, x1, y1)) => (x0.min(wx), y0.min(wy), x1.max(wx), y1.max(wy)),
            });
        }
    }
    let (x0, y0, x1, y1) = union?;
    let (w, h) = (((x1 - x0) * q).round() as i64, ((y1 - y0) * q).round() as i64);
    let axis = if x1 - x0 >= y1 - y0 { LayoutAxis::Horizontal } else { LayoutAxis::Vertical };
    Some((format!("M 0 0 L {w} 0 L {w} {h} L 0 {h} Z"), translate(x0, y0), axis))
}

fn frame_op(ops: &[ObjectOp]) -> &Object {
    match &ops[0] {
        ObjectOp::InsertObject { object } => object,
        other => panic!("expected insert-object first, got {}", other.kind()),
    }
}

#[test]
fn group_ops_frame_is_sized_and_placed_to_the_union_world_aabb() {
    let scene = scene_of(vec![rect("a", "a0", 10.0, 10.0, 40, 20), rect("b", "a1", 60.0, 50.0, 30, 30)]);
    let ops = group_ops(&scene, &["a".into(), "b".into()], "frame", &frame_of).expect("group authors ops");
    let frame = frame_op(&ops);
    assert_eq!(frame.geometry.path_string, "M 0 0 L 640 0 L 640 560 L 0 560 Z");
    assert_eq!(f64::from_bits(frame.transform.m[0][2]), 10.0);
    assert_eq!(f64::from_bits(frame.transform.m[1][2]), 10.0);
    assert_eq!(frame.clip, Some(false));
}

#[test]
fn group_ops_defaults_to_flow_with_inferred_axis() {
    let wide = scene_of(vec![rect("a", "a0", 0.0, 0.0, 10, 10), rect("b", "a1", 80.0, 20.0, 10, 10)]);
    let wide_ops = group_ops(&wide, &["a".into(), "b".into()], "frame", &frame_of).expect("ops");
    let wide_frame = frame_op(&wide_ops);
    assert_eq!(
        wide_frame.layout,
        Some(Layout {
            axis: LayoutAxis::Horizontal,
            lanes: Lanes::Count { value: 1 },
            spacing: 0,
            align: Align { main: MainAlign::Start, cross: CrossAlign::Start },
        }),
        "wide spread defaults to a horizontal flow",
    );
    let tall = scene_of(vec![rect("a", "a0", 0.0, 0.0, 10, 10), rect("b", "a1", 20.0, 80.0, 10, 10)]);
    let tall_ops = group_ops(&tall, &["a".into(), "b".into()], "frame", &frame_of).expect("ops");
    let tall_frame = frame_op(&tall_ops);
    assert_eq!(tall_frame.layout.map(|l| l.axis), Some(LayoutAxis::Vertical), "tall spread defaults to a vertical flow");
}

#[test]
fn group_ops_reparents_every_child_into_the_frame_with_validating_ascending_keys() {
    let scene = scene_of(vec![rect("a", "a0", 0.0, 0.0, 10, 10), rect("b", "a1", 20.0, 0.0, 10, 10)]);
    let ops = group_ops(&scene, &["a".into(), "b".into()], "frame", &frame_of).expect("ops");
    assert_eq!(ops.len(), 3);
    let mut keys: Vec<String> = Vec::new();
    for op in &ops[1..] {
        match op {
            ObjectOp::Reparent { id, parent, order } => {
                assert_eq!(parent.as_deref(), Some("frame"), "child {id} re-homed into frame");
                keys.push(order.clone());
            }
            other => panic!("expected reparent, got {}", other.kind()),
        }
    }
    assert_eq!(cmp_keys(&keys[0], &keys[1]), core::cmp::Ordering::Less, "{keys:?} not ascending");
    let mut applied = scene.clone();
    parse_scene(&mut applied);
    for op in ops {
        apply_object_op(&mut applied, op).expect("group op applies");
    }
    assert!(applied.get("frame").is_some());
    assert_eq!(applied.get("a").unwrap().parent.as_deref(), Some("frame"));
    assert_eq!(applied.get("b").unwrap().parent.as_deref(), Some("frame"));
}

#[test]
fn group_ops_is_none_below_two_members() {
    let scene = scene_of(vec![rect("a", "a0", 0.0, 0.0, 10, 10)]);
    assert!(group_ops(&scene, &["a".into()], "frame", &frame_of).is_none(), "single member: nothing to group");
    assert!(group_ops(&scene, &["ghost".into(), "phantom".into()], "frame", &frame_of).is_none(), "unknown members");
}

#[test]
fn group_ops_keeps_paint_order_of_the_members() {
    let scene = scene_of(vec![rect("b", "a5", 20.0, 0.0, 10, 10), rect("a", "a1", 0.0, 0.0, 10, 10)]);
    let ops = group_ops(&scene, &["b".into(), "a".into()], "frame", &frame_of).expect("ops");
    let ids: Vec<&str> = ops[1..]
        .iter()
        .map(|op| match op {
            ObjectOp::Reparent { id, .. } => id.as_str(),
            other => panic!("expected reparent, got {}", other.kind()),
        })
        .collect();
    assert_eq!(ids, vec!["a", "b"], "reparented in paint order, not input order");
    assert_eq!(frame_op(&ops).order, "a6", "the frame lands just above the scene's top");
}
