use scene_core::object::anchor_follow::number_spans;
use scene_core::object::authoring::edit::{detach_move_ops, move_ops_for_pick, move_roots_for, MoveRoots};
use scene_core::object::cascade::{cascade_multi_transform_ops, cascade_transform_ops, move_ops};
use scene_core::object::model::{
    Anchor, FillRule, Geometry, LocalPoint, Object, ObjectScene, ObjectSelection, Transform3x3,
    GEOMETRY_QUANTUM_PER_PX,
};
use scene_core::object::op::ObjectOp;

const Q: i32 = GEOMETRY_QUANTUM_PER_PX;
const UNITS_PER_PX: f64 = GEOMETRY_QUANTUM_PER_PX as f64;

type Matrix = [[f64; 3]; 3];

fn matrix_of(t: &Transform3x3) -> Matrix {
    let mut m = [[0.0; 3]; 3];
    for (r, row) in t.m.iter().enumerate() {
        for (c, v) in row.iter().enumerate() {
            m[r][c] = f64::from_bits(*v);
        }
    }
    m
}

fn transform_of(m: Matrix) -> Transform3x3 {
    let mut t = Transform3x3 { m: [[0; 3]; 3] };
    for r in 0..3 {
        for c in 0..3 {
            t.m[r][c] = m[r][c].to_bits();
        }
    }
    t
}

fn mul(a: &Matrix, b: &Matrix) -> Matrix {
    let mut m = [[0.0; 3]; 3];
    for r in 0..3 {
        for c in 0..3 {
            m[r][c] = (0..3).map(|k| a[r][k] * b[k][c]).sum();
        }
    }
    m
}

fn invert(a: &Matrix) -> Matrix {
    let det = a[0][0] * a[1][1] - a[0][1] * a[1][0];
    if det == 0.0 {
        return [[1.0, 0.0, 0.0], [0.0, 1.0, 0.0], [0.0, 0.0, 1.0]];
    }
    let (ia, ib) = (a[1][1] / det, -a[0][1] / det);
    let (id, ie) = (-a[1][0] / det, a[0][0] / det);
    [[ia, ib, -(ia * a[0][2] + ib * a[1][2])], [id, ie, -(id * a[0][2] + ie * a[1][2])], [0.0, 0.0, 1.0]]
}

fn apply(m: &Matrix, x: f64, y: f64) -> (f64, f64) {
    (m[0][0] * x + m[0][1] * y + m[0][2], m[1][0] * x + m[1][1] * y + m[1][2])
}

fn translate(tx: f64, ty: f64) -> Transform3x3 {
    transform_of([[1.0, 0.0, tx], [0.0, 1.0, ty], [0.0, 0.0, 1.0]])
}

fn rot90() -> Transform3x3 {
    transform_of([[0.0, -1.0, 0.0], [1.0, 0.0, 0.0], [0.0, 0.0, 1.0]])
}

/// The follower-local quantized position of the anchor point `at` of a target
/// with transform `target`, on a follower with transform `follower`.
fn reproject(follower: &Transform3x3, target: &Transform3x3, at: LocalPoint) -> (i64, i64) {
    let (wx, wy) = apply(&matrix_of(target), f64::from(at.x) / UNITS_PER_PX, f64::from(at.y) / UNITS_PER_PX);
    let (fx, fy) = apply(&invert(&matrix_of(follower)), wx, wy);
    ((fx * UNITS_PER_PX).round() as i64, (fy * UNITS_PER_PX).round() as i64)
}

fn coords(d: &str) -> Vec<f64> {
    let chars: Vec<char> = d.chars().collect();
    number_spans(d)
        .iter()
        .map(|s| chars[s.0..s.1].iter().collect::<String>().parse().unwrap_or(0.0))
        .collect()
}

/// `d` with its open chord carried to new endpoints (a similarity about the
/// start, then rounding); an endpoint given as `None` stays.
fn deform_open_path(d: &str, start: Option<(i64, i64)>, end: Option<(i64, i64)>) -> Option<String> {
    let spans = number_spans(d);
    let chars: Vec<char> = d.chars().collect();
    let c = coords(d);
    let pairs = c.len() / 2;
    if pairs < 2 {
        return None;
    }
    let (ox0, oy0, ox1, oy1) = (c[0], c[1], c[2 * pairs - 2], c[2 * pairs - 1]);
    let (nx0, ny0) = start.map(|(x, y)| (x as f64, y as f64)).unwrap_or((ox0, oy0));
    let (nx1, ny1) = end.map(|(x, y)| (x as f64, y as f64)).unwrap_or((ox1, oy1));
    let (dx, dy) = (ox1 - ox0, oy1 - oy0);
    let len2 = dx * dx + dy * dy;
    if len2 == 0.0 {
        return None;
    }
    let (ex, ey) = (nx1 - nx0, ny1 - ny0);
    let a = (ex * dx + ey * dy) / len2;
    let b = (ey * dx - ex * dy) / len2;
    let mut out = String::new();
    let mut last = 0usize;
    for (k, span) in spans.iter().enumerate() {
        out.extend(chars[last..span.0].iter());
        let p = k / 2;
        let (rx, ry) = (c[2 * p] - ox0, c[2 * p + 1] - oy0);
        let v = if k % 2 == 0 { nx0 + a * rx - b * ry } else { ny0 + b * rx + a * ry };
        out.push_str(&(v.round() as i64).to_string());
        last = span.1;
    }
    out.extend(chars[last..].iter());
    Some(out)
}

fn is_pure_translate(m: &Matrix) -> bool {
    m[0][0] == 1.0 && m[0][1] == 0.0 && m[1][0] == 0.0 && m[1][1] == 1.0 && m[2] == [0.0, 0.0, 1.0]
}

fn is_open_class(g: &Geometry) -> bool {
    let d = &g.path_string;
    !d.contains(['Z', 'z']) && d.matches(['M', 'm']).count() == 1
}

fn set_move(o: &Object, delta: &Transform3x3) -> ObjectOp {
    ObjectOp::SetTransform { id: o.id.clone(), transform: transform_of(mul(&matrix_of(delta), &matrix_of(&o.transform))) }
}

/// Which endpoints an unmoved anchor target pins; `None` for an anchor on an
/// interior node.
fn open_endpoint_pins(d: &str, anchors: &[Anchor], moved: &[String]) -> Option<(bool, bool)> {
    let last = coords(d).len() / 2 - 1;
    let (mut start, mut end) = (false, false);
    for a in anchors {
        let n = a.node_index as usize;
        if n != 0 && n != last {
            return None;
        }
        let pinned = !moved.iter().any(|m| *m == a.target);
        if n == 0 {
            start |= pinned;
        } else {
            end |= pinned;
        }
    }
    Some((start, end))
}

/// The op a moved member commits under `delta`: a closed, unanchored or
/// interior-anchored member composes the delta onto its transform; an open
/// member commits through its endpoints (nothing when both are pinned, a
/// chord deform when one is or the delta is not a translate).
fn member_op(o: &Object, moved: &Vec<String>, delta: &Transform3x3) -> Option<ObjectOp> {
    let dm = matrix_of(delta);
    if (o.anchors.is_empty() && is_pure_translate(&dm)) || !is_open_class(&o.geometry) {
        return Some(set_move(o, delta));
    }
    let d = o.geometry.path_string.as_str();
    let Some((start_pinned, end_pinned)) = open_endpoint_pins(d, &o.anchors, moved) else {
        return Some(set_move(o, delta));
    };
    if start_pinned && end_pinned {
        return None;
    }
    if !start_pinned && !end_pinned && is_pure_translate(&dm) {
        return Some(set_move(o, delta));
    }
    let t = matrix_of(&o.transform);
    let m = mul(&invert(&t), &mul(&dm, &t));
    let c = coords(d);
    let n = c.len();
    let carry = |x: f64, y: f64| {
        let (px, py) = apply(&m, x / UNITS_PER_PX, y / UNITS_PER_PX);
        ((px * UNITS_PER_PX).round() as i64, (py * UNITS_PER_PX).round() as i64)
    };
    let new_start = if start_pinned { None } else { Some(carry(c[0], c[1])) };
    let new_end = if end_pinned { None } else { Some(carry(c[n - 2], c[n - 1])) };
    let new_d = deform_open_path(d, new_start, new_end).filter(|nd| nd != d)?;
    Some(ObjectOp::EditGeometry {
        id: o.id.clone(),
        geometry: Geometry { path_string: new_d, fill_rule: o.geometry.fill_rule, subpaths: Vec::new() },
    })
}

fn cascade_single(scene: &ObjectScene, id: &str, delta: &Transform3x3) -> Vec<ObjectOp> {
    cascade_transform_ops(scene, id, &|o: &Object, m: &Vec<String>| member_op(o, m, delta))
}

fn cascade_multi(scene: &ObjectScene, ids: &[String], delta: &Transform3x3) -> Vec<ObjectOp> {
    cascade_multi_transform_ops(scene, ids, &|o: &Object, m: &Vec<String>| member_op(o, m, delta))
}

fn moves(scene: &ObjectScene, roots: &MoveRoots, delta: &Transform3x3) -> Vec<ObjectOp> {
    move_ops(scene, roots, &|o: &Object, m: &Vec<String>| member_op(o, m, delta), &reproject, &deform_open_path)
}

fn polyline(d: &str) -> Geometry {
    let mut g = Geometry { path_string: d.to_string(), fill_rule: FillRule::EvenOdd, subpaths: Vec::new() };
    g.ensure_parsed().unwrap();
    g
}

/// A two-node line object at translate `(tx, ty)`, optionally parented.
fn obj(id: &str, parent: Option<&str>, tx: f64, ty: f64) -> Object {
    let mut o = Object::new(id, "a0", polyline("M 0 0 L 8 0"));
    o.parent = parent.map(str::to_string);
    o.transform = translate(tx, ty);
    o
}

/// A closed rect object at translate `(tx, ty)`.
fn closed_obj(id: &str, parent: Option<&str>, tx: f64, ty: f64) -> Object {
    let mut o = Object::new(id, "a0", polyline("M 0 0 L 80 0 L 80 40 L 0 40 Z"));
    o.parent = parent.map(str::to_string);
    o.transform = translate(tx, ty);
    o
}

fn scene_of(objects: Vec<Object>) -> ObjectScene {
    ObjectScene { scene_version: 1, objects, tags: Vec::new(), selection: ObjectSelection::Canvas, updated_at: String::new() }
}

/// The ordered `set-transform` ids of an op batch.
fn moved_ids(ops: &[ObjectOp]) -> Vec<&str> {
    ops.iter()
        .filter_map(|op| match op {
            ObjectOp::SetTransform { id, .. } => Some(id.as_str()),
            _ => None,
        })
        .collect()
}

/// The composed translate of the `set-transform` op for `id` in a batch.
fn moved_translate(ops: &[ObjectOp], id: &str) -> (f64, f64) {
    for op in ops {
        if let ObjectOp::SetTransform { id: oid, transform } = op {
            if oid == id {
                let m = matrix_of(transform);
                return (m[0][2], m[1][2]);
            }
        }
    }
    panic!("no set-transform for {id}");
}

#[test]
fn cascade_applies_delta_to_parent_and_children_parent_first() {
    let scene = scene_of(vec![
        obj("frame", None, 100.0, 100.0),
        obj("c1", Some("frame"), 110.0, 120.0),
        obj("c2", Some("frame"), 130.0, 140.0),
    ]);
    let ops = cascade_single(&scene, "frame", &translate(40.0, 25.0));
    assert_eq!(moved_ids(&ops), vec!["frame", "c1", "c2"]);
    assert_eq!(moved_translate(&ops, "frame"), (140.0, 125.0));
    assert_eq!(moved_translate(&ops, "c1"), (150.0, 145.0));
    assert_eq!(moved_translate(&ops, "c2"), (170.0, 165.0));
}

#[test]
fn cascade_is_transitive_to_a_grandchild() {
    let scene = scene_of(vec![
        obj("frame", None, 0.0, 0.0),
        obj("inner", Some("frame"), 50.0, 50.0),
        obj("leaf", Some("inner"), 70.0, 80.0),
    ]);
    let ops = cascade_single(&scene, "frame", &translate(10.0, -5.0));
    assert_eq!(moved_ids(&ops), vec!["frame", "inner", "leaf"]);
    assert_eq!(moved_translate(&ops, "leaf"), (80.0, 75.0));
}

#[test]
fn single_drag_cascades_only_its_subtree() {
    let scene = scene_of(vec![
        obj("frame", None, 0.0, 0.0),
        obj("c1", Some("frame"), 10.0, 10.0),
        obj("loner", None, 200.0, 200.0),
    ]);
    let ops = cascade_single(&scene, "frame", &translate(5.0, 5.0));
    let mut ids = moved_ids(&ops);
    ids.sort_unstable();
    assert_eq!(ids, vec!["c1", "frame"]);
}

#[test]
fn cascade_missing_id_is_empty() {
    let scene = scene_of(vec![obj("a", None, 0.0, 0.0)]);
    assert!(cascade_single(&scene, "ghost", &translate(1.0, 1.0)).is_empty());
}

#[test]
fn multi_drag_moves_every_member_in_input_order() {
    let scene = scene_of(vec![
        obj("a", None, 100.0, 100.0),
        obj("b", None, 300.0, 50.0),
        obj("c", None, 500.0, 500.0),
    ]);
    let ids = vec!["a".to_string(), "b".to_string()];
    let ops = cascade_multi(&scene, &ids, &translate(40.0, 25.0));
    assert_eq!(moved_ids(&ops), vec!["a", "b"]);
    assert_eq!(moved_translate(&ops, "a"), (140.0, 125.0));
    assert_eq!(moved_translate(&ops, "b"), (340.0, 75.0));
}

#[test]
fn cascade_member_that_is_also_a_descendant_appears_once() {
    let scene = scene_of(vec![obj("frame", None, 0.0, 0.0), obj("child", Some("frame"), 50.0, 50.0)]);
    let ids = vec!["frame".to_string(), "child".to_string()];
    let ops = cascade_multi(&scene, &ids, &translate(10.0, 10.0));
    assert_eq!(moved_ids(&ops), vec!["frame", "child"]);
    assert_eq!(moved_ids(&ops).iter().filter(|id| **id == "child").count(), 1, "child deduped");
    assert_eq!(moved_translate(&ops, "child"), (60.0, 60.0));
}

#[test]
fn compose_is_pre_multiply_delta_times_base() {
    let scene = scene_of(vec![closed_obj("c", None, 1.0, 0.0)]);
    let ops = cascade_single(&scene, "c", &rot90());
    let (x, y) = moved_translate(&ops, "c");
    assert!((x - 0.0).abs() < 1e-9, "x={x}");
    assert!((y - 1.0).abs() < 1e-9, "y={y}");
}

/// An identity-transform open line (0,0)->(100,0)px with the given anchors.
fn open_edge(anchors: Vec<Anchor>) -> Object {
    let mut o = Object::new("edge", "a1", polyline("M 0 0 L 800 0"));
    o.anchors = anchors;
    o
}

fn anchor_to(node_index: u32, target: &str) -> Anchor {
    Anchor { node_index, target: target.to_string(), at: LocalPoint { x: 0, y: 0 } }
}

#[test]
fn open_member_translate_with_one_pinned_endpoint_moves_only_the_free_end() {
    let scene = scene_of(vec![closed_obj("rect-a", None, 0.0, 0.0), open_edge(vec![anchor_to(0, "rect-a")])]);
    let ops = moves(&scene, &MoveRoots::Single("edge".to_string()), &translate(40.0, 30.0));
    assert_eq!(ops.len(), 1, "one deform op: {ops:?}");
    let ObjectOp::EditGeometry { id, geometry } = &ops[0] else {
        panic!("expected edit-geometry, got {ops:?}");
    };
    assert_eq!(id, "edge");
    assert_eq!(geometry.path_string, "M 0 0 L 1120 240");
}

#[test]
fn open_member_with_both_endpoints_pinned_authors_nothing() {
    let scene = scene_of(vec![
        closed_obj("rect-a", None, 0.0, 0.0),
        closed_obj("rect-b", None, 300.0, 0.0),
        open_edge(vec![anchor_to(0, "rect-a"), anchor_to(1, "rect-b")]),
    ]);
    let ops = moves(&scene, &MoveRoots::Single("edge".to_string()), &translate(40.0, 30.0));
    assert!(ops.is_empty(), "both ends pinned => no op: {ops:?}");
}

#[test]
fn both_moved_translate_reduces_to_set_transform() {
    let scene = scene_of(vec![closed_obj("rect-a", None, 200.0, 0.0), open_edge(vec![anchor_to(1, "rect-a")])]);
    let roots = MoveRoots::Multi(vec!["rect-a".to_string(), "edge".to_string()]);
    let ops = moves(&scene, &roots, &translate(50.0, 20.0));
    assert_eq!(moved_ids(&ops), vec!["rect-a", "edge"]);
    assert!(
        ops.iter().all(|op| matches!(op, ObjectOp::SetTransform { .. })),
        "no deform/follow op when both ride the same translate: {ops:?}"
    );
    assert_eq!(moved_translate(&ops, "edge"), (50.0, 20.0));
}

#[test]
fn group_rotate_routes_the_open_member_through_endpoint_deform() {
    let frame = closed_obj("g", None, 0.0, 0.0);
    let mut edge = open_edge(Vec::new());
    edge.parent = Some("g".to_string());
    let scene = scene_of(vec![frame, edge]);
    let ops = moves(&scene, &MoveRoots::Single("g".to_string()), &rot90());
    assert_eq!(moved_ids(&ops), vec!["g"]);
    let deform = ops
        .iter()
        .find_map(|op| match op {
            ObjectOp::EditGeometry { id, geometry } if id == "edge" => Some(geometry),
            _ => None,
        })
        .expect("a chord-deform op for the open member");
    assert_eq!(deform.path_string, "M 0 0 L 0 800");
}

#[test]
fn open_member_with_an_interior_anchor_keeps_set_transform() {
    let mut edge = Object::new("edge", "a1", polyline("M 0 0 L 800 0 L 1600 0"));
    edge.anchors = vec![anchor_to(1, "rect-a")];
    let scene = scene_of(vec![closed_obj("rect-a", None, 100.0, 0.0), edge]);
    let ops = moves(&scene, &MoveRoots::Single("edge".to_string()), &translate(40.0, 30.0));
    assert_eq!(moved_ids(&ops), vec!["edge"], "legacy splice era rides the transform");
    assert_eq!(ops.len(), 1, "{ops:?}");
}

#[test]
fn move_ops_without_anchors_is_cascade_only() {
    let scene = scene_of(vec![obj("a", None, 0.0, 0.0), obj("b", Some("a"), 5.0, 5.0)]);
    let ops = moves(&scene, &MoveRoots::Single("a".to_string()), &translate(3.0, 4.0));
    assert_eq!(moved_ids(&ops), vec!["a", "b"]);
    assert!(ops.iter().all(|op| matches!(op, ObjectOp::SetTransform { .. })), "no follow ops when nothing is anchored");
}

#[test]
fn move_ops_multi_dispatch_matches_multi_cascade() {
    let scene = scene_of(vec![obj("a", None, 0.0, 0.0), obj("b", None, 10.0, 0.0)]);
    let ids = vec!["a".to_string(), "b".to_string()];
    let direct = cascade_multi(&scene, &ids, &translate(7.0, 0.0));
    let viamove = moves(&scene, &MoveRoots::Multi(ids.clone()), &translate(7.0, 0.0));
    assert_eq!(direct, viamove);
}

#[test]
fn multi_cascade_order_matches_renderer_core_same_delta_closure() {
    let scene = scene_of(vec![
        obj("a", None, 0.0, 0.0),
        obj("b", Some("a"), 0.0, 0.0),
        obj("d", None, 0.0, 0.0),
        obj("e", Some("d"), 0.0, 0.0),
    ]);
    let ids = vec!["a".to_string(), "d".to_string()];
    let ops = cascade_multi(&scene, &ids, &translate(1.0, 1.0));
    assert_eq!(moved_ids(&ops), vec!["a", "b", "d", "e"]);
}

#[test]
fn descendant_root_keeps_first_position() {
    let scene = scene_of(vec![obj("a", None, 0.0, 0.0), obj("b", Some("a"), 0.0, 0.0)]);
    let ids = vec!["a".to_string(), "b".to_string()];
    let ops = cascade_multi(&scene, &ids, &translate(1.0, 1.0));
    assert_eq!(moved_ids(&ops), vec!["a", "b"]);
}

#[test]
fn a_follow_edit_comes_after_every_cascade_op() {
    let target = obj("target", None, 200.0, 0.0);
    let mut follower = Object::new("edge", "a1", polyline(&format!("M {} {} L {} {}", 40 * Q, 30 * Q, 200 * Q, 30 * Q)));
    follower.anchors = vec![Anchor { node_index: 1, target: "target".into(), at: LocalPoint { x: 0, y: 30 * Q } }];
    let scene = scene_of(vec![target, follower]);
    let ops = moves(&scene, &MoveRoots::Single("target".to_string()), &translate(50.0, 20.0));
    assert!(matches!(ops[0], ObjectOp::SetTransform { ref id, .. } if id == "target"));
    let first_follow = ops.iter().position(|op| matches!(op, ObjectOp::EditGeometry { .. })).expect("a follow edit-geometry op");
    let last_move = ops.iter().rposition(|op| matches!(op, ObjectOp::SetTransform { .. })).expect("a cascade set-transform op");
    assert!(last_move < first_follow, "every cascade op precedes every follow op");
    let ObjectOp::EditGeometry { id, geometry } = &ops[first_follow] else {
        panic!("expected edit-geometry");
    };
    assert_eq!(id, "edge");
    assert_eq!(geometry.path_string, format!("M {} {} L {} {}", 40 * Q, 30 * Q, 250 * Q, 50 * Q));
}

// --- the drag commits of the authoring surface ---

fn edit_obj(id: &str, order: &str, tx: f64, ty: f64) -> Object {
    let mut o = Object::new(id, order, polyline("M 0 0 L 8 0"));
    o.transform = translate(tx, ty);
    o
}

fn anchored_open_edge() -> Object {
    let mut o = Object::new("edge", "a1", polyline("M 0 0 L 800 0"));
    o.anchors = vec![Anchor { node_index: 0, target: "rect".into(), at: LocalPoint { x: 0, y: 0 } }];
    o
}

fn detach(scene: &ObjectScene, id: &str, delta: &Transform3x3) -> Vec<ObjectOp> {
    detach_move_ops(scene, id, &|o: &Object, m: &Vec<String>| member_op(o, m, delta), &reproject, &deform_open_path)
}

fn pick(scene: &ObjectScene, sel: &ObjectSelection, id: &str, delta: &Transform3x3) -> Vec<ObjectOp> {
    move_ops_for_pick(scene, sel, id, &|o: &Object, m: &Vec<String>| member_op(o, m, delta), &reproject, &deform_open_path)
}

#[test]
fn detach_emits_clear_anchor_then_whole_object_translate() {
    let scene = scene_of(vec![edit_obj("rect", "a0", 0.0, 0.0), anchored_open_edge()]);
    let ops = detach(&scene, "edge", &translate(40.0, 30.0));
    match &ops[0] {
        ObjectOp::SetAnchor { id, anchors } => {
            assert_eq!(id, "edge");
            assert!(anchors.is_empty(), "anchors cleared");
        }
        other => panic!("expected set-anchor first, got {}", other.kind()),
    }
    let move_op = ops[1..].iter().find(|op| matches!(op, ObjectOp::SetTransform { id, .. } if id == "edge"));
    assert!(move_op.is_some(), "a whole-object translate for the detached edge: {ops:?}");
    assert!(
        !ops.iter().any(|op| matches!(op, ObjectOp::EditGeometry { id, .. } if id == "edge")),
        "no anchor-follow reprojection of the detached edge: {ops:?}"
    );
    let ObjectOp::SetTransform { transform, .. } = move_op.unwrap() else { unreachable!() };
    let m = matrix_of(transform);
    assert_eq!((m[0][2], m[1][2]), (40.0, 30.0));
}

#[test]
fn detach_differs_from_a_plain_move_of_the_same_anchored_edge() {
    let scene = scene_of(vec![edit_obj("rect", "a0", 0.0, 0.0), anchored_open_edge()]);
    let plain = moves(&scene, &MoveRoots::Single("edge".to_string()), &translate(40.0, 30.0));
    assert!(
        plain.iter().any(|op| matches!(op, ObjectOp::EditGeometry { id, .. } if id == "edge")),
        "a plain move pins the anchored endpoint (deform): {plain:?}"
    );
}

#[test]
fn detach_missing_id_is_empty() {
    let scene = scene_of(vec![edit_obj("a", "a0", 0.0, 0.0)]);
    assert!(detach(&scene, "ghost", &translate(1.0, 1.0)).is_empty());
}

#[test]
fn multi_pick_on_a_member_moves_the_whole_set() {
    let sel = ObjectSelection::Multi { ids: vec!["a".into(), "b".into()] };
    match move_roots_for(&sel, "a") {
        MoveRoots::Multi(ids) => assert_eq!(ids, vec!["a".to_string(), "b".to_string()]),
        MoveRoots::Single(_) => panic!("multi-on-member must be Multi"),
    }
    let scene = scene_of(vec![edit_obj("a", "a0", 0.0, 0.0), edit_obj("b", "a1", 50.0, 0.0)]);
    let ops = pick(&scene, &sel, "a", &translate(10.0, 0.0));
    assert_eq!(moved_ids(&ops), vec!["a", "b"], "the whole set moves");
}

#[test]
fn move_ops_for_pick_single_matches_bare_move_ops() {
    let scene = scene_of(vec![edit_obj("a", "a0", 0.0, 0.0), edit_obj("b", "a1", 5.0, 5.0)]);
    let sel = ObjectSelection::Object { id: "a".into() };
    let viapick = pick(&scene, &sel, "a", &translate(3.0, 4.0));
    let bare = moves(&scene, &MoveRoots::Single("a".to_string()), &translate(3.0, 4.0));
    assert_eq!(viapick, bare);
}
