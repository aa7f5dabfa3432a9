use scene_core::object::anchor_follow::{anchor_follow_ops, number_spans, reproject_geometry_node, set_path_node};
use scene_core::object::apply::apply_object_op;
use scene_core::object::binding::geometry_follow::geometry_follow_ops;
use scene_core::object::binding::region::StubOutlineDeriver;
use scene_core::object::model::{
    Anchor, FillRule, Geometry, LocalPoint, Object, ObjectScene, ObjectSelection, PathNode, SubPath,
    Transform3x3, GEOMETRY_QUANTUM_PER_PX,
};
use scene_core::object::op::ObjectOp;

const Q: i32 = GEOMETRY_QUANTUM_PER_PX;
const UNITS_PER_PX: f64 = GEOMETRY_QUANTUM_PER_PX as f64;

type Affine = [[f64; 3]; 2];

fn num(b: u64) -> f64 {
    f64::from_bits(b)
}

fn affine_of(t: &Transform3x3) -> Affine {
    [
        [num(t.m[0][0]), num(t.m[0][1]), num(t.m[0][2])],
        [num(t.m[1][0]), num(t.m[1][1]), num(t.m[1][2])],
    ]
}

fn apply_affine(a: &Affine, x: f64, y: f64) -> (f64, f64) {
    (a[0][0] * x + a[0][1] * y + a[0][2], a[1][0] * x + a[1][1] * y + a[1][2])
}

fn invert_affine(a: &Affine) -> Affine {
    let (a00, a01, a02) = (a[0][0], a[0][1], a[0][2]);
    let (a10, a11, a12) = (a[1][0], a[1][1], a[1][2]);
    let det = a00 * a11 - a01 * a10;
    if det == 0.0 {
        return [[1.0, 0.0, 0.0], [0.0, 1.0, 0.0]];
    }
    let ia = a11 / det;
    let ib = -a01 / det;
    let id = -a10 / det;
    let ie = a00 / det;
    [[ia, ib, -(ia * a02 + ib * a12)], [id, ie, -(id * a02 + ie * a12)]]
}

/// The follower-local quantized position of the anchor point `at` of a target
/// with transform `target`, on a follower with transform `follower`.
fn reproject(follower: &Transform3x3, target: &Transform3x3, at: LocalPoint) -> (i64, i64) {
    let lx = f64::from(at.x) / UNITS_PER_PX;
    let ly = f64::from(at.y) / UNITS_PER_PX;
    let (wx, wy) = apply_affine(&affine_of(target), lx, ly);
    let inv = invert_affine(&affine_of(follower));
    let (fx, fy) = apply_affine(&inv, wx, wy);
    ((fx * UNITS_PER_PX).round() as i64, (fy * UNITS_PER_PX).round() as i64)
}

/// `d` with its open chord carried to new endpoints: every coordinate pair
/// moves by the similarity (rotation and uniform scale about the start) that
/// takes the old first and last nodes to the new ones, then rounds; `None`
/// for fewer than two nodes or a zero-length chord. An endpoint given as
/// `None` stays where it is.
// Floating point: a similarity transform of every node, and rounding.
fn deform_open_path(d: &str, start: Option<(i64, i64)>, end: Option<(i64, i64)>) -> Option<String> {
    let spans = number_spans(d);
    let chars: Vec<char> = d.chars().collect();
    let text = |k: usize| -> String { chars[spans[k].0..spans[k].1].iter().collect() };
    let num = |k: usize| -> f64 { text(k).parse().unwrap_or(0.0) };
    let pairs = spans.len() / 2;
    if pairs < 2 {
        return None;
    }
    let (ox0, oy0) = (num(0), num(1));
    let (ox1, oy1) = (num(2 * pairs - 2), num(2 * pairs - 1));
    let (nx0, ny0) = start.map(|(x, y)| (x as f64, y as f64)).unwrap_or((ox0, oy0));
    let (nx1, ny1) = end.map(|(x, y)| (x as f64, y as f64)).unwrap_or((ox1, oy1));
    let (dx, dy) = (ox1 - ox0, oy1 - oy0);
    let len2 = dx * dx + dy * dy;
    if len2 == 0.0 {
        return None;
    }
    let (ex, ey) = (nx1 - nx0, ny1 - ny0);
    let a = (ex * dx + ey * dy) / len2;
    let b = (ey * dx - ex * dy) / len2;
    let mut out = String::new();
    let mut last = 0usize;
    for (k, span) in spans.iter().enumerate() {
        out.extend(chars[last..span.0].iter());
        if k < 2 * pairs {
            let p = k / 2;
            let (rx, ry) = (num(2 * p) - ox0, num(2 * p + 1) - oy0);
            let v = if k % 2 == 0 { nx0 + a * rx - b * ry } else { ny0 + b * rx + a * ry };
            out.push_str(&(v.round() as i64).to_string());
        } else {
            out.push_str(&text(k));
        }
        last = span.1;
    }
    out.extend(chars[last..].iter());
    Some(out)
}

/// The composition `delta * target` of two affine transforms.
fn compose(delta: &Transform3x3, target: &Transform3x3) -> Transform3x3 {
    let (d, t) = (affine_of(delta), affine_of(target));
    let m = [
        [
            d[0][0] * t[0][0] + d[0][1] * t[1][0],
            d[0][0] * t[0][1] + d[0][1] * t[1][1],
            d[0][0] * t[0][2] + d[0][1] * t[1][2] + d[0][2],
        ],
        [
            d[1][0] * t[0][0] + d[1][1] * t[1][0],
            d[1][0] * t[0][1] + d[1][1] * t[1][1],
            d[1][0] * t[0][2] + d[1][1] * t[1][2] + d[1][2],
        ],
    ];
    let (one, zero) = (1f64.to_bits(), 0f64.to_bits());
    Transform3x3 {
        m: [
            [m[0][0].to_bits(), m[0][1].to_bits(), m[0][2].to_bits()],
            [m[1][0].to_bits(), m[1][1].to_bits(), m[1][2].to_bits()],
            [zero, zero, one],
        ],
    }
}

fn translate(tx: f64, ty: f64) -> Transform3x3 {
    let one = 1f64.to_bits();
    let zero = 0f64.to_bits();
    Transform3x3 { m: [[one, zero, tx.to_bits()], [zero, one, ty.to_bits()], [zero, zero, one]] }
}

fn polyline(d: &str) -> Geometry {
    let mut g = Geometry { path_string: d.to_string(), fill_rule: FillRule::EvenOdd, subpaths: Vec::new() };
    g.ensure_parsed().unwrap();
    g
}

/// A two-node open line at object-local (0,0)-(lx,ly) quantized units.
fn line(id: &str, lx: i32, ly: i32, tx: f64, ty: f64) -> Object {
    let mut o = Object::new(id, "a0", polyline(&format!("M 0 0 L {lx} {ly}")));
    o.transform = translate(tx, ty);
    o
}

fn move_op(id: &str, transform: Transform3x3) -> ObjectOp {
    ObjectOp::SetTransform { id: id.to_string(), transform }
}

fn scene_of(objects: Vec<Object>) -> ObjectScene {
    ObjectScene { scene_version: 1, objects, tags: Vec::new(), selection: ObjectSelection::Canvas, updated_at: String::new() }
}

/// The world position of node `i` of `obj`'s path under its transform.
fn world_node(obj: &Object, i: usize) -> (f64, f64) {
    let d = &obj.geometry.path_string;
    let spans = number_spans(d);
    let chars: Vec<char> = d.chars().collect();
    let text = |k: usize| -> f64 { chars[spans[k].0..spans[k].1].iter().collect::<String>().parse().unwrap() };
    let (nx, ny) = (text(2 * i), text(2 * i + 1));
    apply_affine(&affine_of(&obj.transform), nx / UNITS_PER_PX, ny / UNITS_PER_PX)
}

/// A line from world (40,30) to the world point (200,30), its node 1 anchored
/// to `rect-a` (at world (200,0)) at that point: target-local (0,30) px.
fn anchored_line() -> Object {
    let mut o = Object::new("edge-1", "a1", polyline(&format!("M {} {} L {} {}", 40 * Q, 30 * Q, 200 * Q, 30 * Q)));
    o.anchors = vec![Anchor { node_index: 1, target: "rect-a".into(), at: LocalPoint { x: 0, y: 30 * Q } }];
    o
}

#[test]
fn anchor_follow_pure_translation_moves_follower_node_by_the_same_world_delta() {
    let target = line("rect-a", 0, 0, 200.0, 0.0);
    let follower = anchored_line();
    let (rx, ry) = world_node(&follower, 1);
    assert!((rx - 200.0).abs() < 1e-9 && (ry - 30.0).abs() < 1e-9, "rest ({rx},{ry})");

    let scene = scene_of(vec![target.clone(), follower.clone()]);
    let ops = anchor_follow_ops(&scene, &[move_op("rect-a", translate(250.0, 20.0))], &reproject, &deform_open_path);
    assert_eq!(ops.len(), 1, "one follow op");
    let ObjectOp::EditGeometry { id, geometry } = &ops[0] else {
        panic!("expected edit-geometry");
    };
    assert_eq!(id, "edge-1");
    assert_eq!(geometry.path_string, "M 320 240 L 2000 400");
    let mut followed = follower.clone();
    followed.geometry = geometry.clone();
    let (mx, my) = world_node(&followed, 1);
    assert!((mx - 250.0).abs() < 1e-9 && (my - 50.0).abs() < 1e-9, "moved ({mx},{my})");
    assert_eq!(world_node(&followed, 0), world_node(&follower, 0));
}

#[test]
fn anchor_follow_unanchored_object_authors_nothing() {
    let target = line("rect-a", 0, 0, 200.0, 0.0);
    let alt = line("edge-1", 160 * Q, 0, 0.0, 0.0);
    assert!(alt.anchors.is_empty());
    let scene = scene_of(vec![target, alt]);
    let ops = anchor_follow_ops(&scene, &[move_op("rect-a", translate(250.0, 20.0))], &reproject, &deform_open_path);
    assert!(ops.is_empty(), "an unanchored move-target authors no follow ops");
}

#[test]
fn anchor_follow_anchored_only_to_unmoved_authors_nothing() {
    let target = line("rect-a", 0, 0, 200.0, 0.0);
    let scene = scene_of(vec![target, anchored_line()]);
    let ops = anchor_follow_ops(&scene, &[move_op("rect-z", translate(10.0, 10.0))], &reproject, &deform_open_path);
    assert!(ops.is_empty(), "moving an unrelated object reprojects nothing");
}

#[test]
fn anchor_follow_follower_in_the_moved_set_is_skipped() {
    let target = line("rect-a", 0, 0, 200.0, 0.0);
    let scene = scene_of(vec![target, anchored_line()]);
    let ops = anchor_follow_ops(
        &scene,
        &[move_op("rect-a", translate(250.0, 20.0)), move_op("edge-1", translate(5.0, 5.0))],
        &reproject,
        &deform_open_path,
    );
    assert!(
        ops.iter().all(|op| !matches!(op, ObjectOp::EditGeometry { id, .. } if id == "edge-1")),
        "a follower moved in the same batch is not separately reprojected"
    );
    assert!(ops.is_empty(), "the only anchored follower is itself moved => no ops");
}

#[test]
fn anchor_follow_reproject_matches_cross_core_vector() {
    let mut follower = Object::new("f", "a0", polyline("M 0 0 L 64 0"));
    follower.transform = translate(100.0, 0.0);
    let anchor = Anchor { node_index: 1, target: "t".into(), at: LocalPoint { x: 16, y: 8 } };
    let target_new = translate(15.0, 27.0);

    let (qx, qy) = reproject(&follower.transform, &target_new, anchor.at);
    assert_eq!((qx, qy), (-664, 224), "hand-computed quantized follower-local node");

    follower.anchors = vec![anchor];
    let target = line("t", 0, 0, 0.0, 0.0);
    let scene = scene_of(vec![target, follower]);
    let ops = anchor_follow_ops(&scene, &[move_op("t", target_new)], &reproject, &deform_open_path);
    assert_eq!(ops.len(), 1);
    let ObjectOp::EditGeometry { geometry, .. } = &ops[0] else { panic!("expected edit-geometry") };
    assert_eq!(geometry.path_string, "M 0 0 L -664 224");

    let rewritten = reproject_geometry_node(
        &scene.objects[1].transform,
        &translate(10.0, 20.0),
        &translate(5.0, 7.0),
        LocalPoint { x: 16, y: 8 },
        1,
        "M 0 0 L 64 0",
        &reproject,
        &compose,
    )
    .expect("addressable, changed");
    assert_eq!(rewritten, "M 0 0 L -664 224");
}

#[test]
fn anchor_follow_reproject_no_op_authors_nothing() {
    let target = line("rect-a", 0, 0, 200.0, 0.0);
    let scene = scene_of(vec![target.clone(), anchored_line()]);
    let ops = anchor_follow_ops(&scene, &[move_op("rect-a", target.transform)], &reproject, &deform_open_path);
    assert!(ops.is_empty(), "a no-op reproject authors nothing");
}

#[test]
fn a_move_of_a_target_missing_from_the_scene_authors_nothing() {
    let scene = scene_of(vec![anchored_line()]);
    let ops = anchor_follow_ops(&scene, &[move_op("rect-a", translate(9.0, 9.0))], &reproject, &deform_open_path);
    assert!(ops.is_empty());
}

#[test]
fn the_last_move_of_a_target_wins() {
    let target = line("rect-a", 0, 0, 200.0, 0.0);
    let scene = scene_of(vec![target, anchored_line()]);
    let ops = anchor_follow_ops(
        &scene,
        &[move_op("rect-a", translate(250.0, 20.0)), move_op("rect-a", translate(200.0, 10.0))],
        &reproject,
        &deform_open_path,
    );
    assert_eq!(ops.len(), 1, "one edit per follower");
    let ObjectOp::EditGeometry { id, geometry } = &ops[0] else { panic!("expected edit-geometry") };
    assert_eq!(id, "edge-1");
    assert_eq!(geometry.path_string, "M 320 240 L 1600 320");
}

#[test]
fn two_anchors_to_one_moved_target_author_one_cumulative_edit() {
    let target = line("rect-a", 0, 0, 200.0, 0.0);
    let mut follower = Object::new("edge-1", "a1", polyline("M 1600 0 L 1600 240"));
    follower.anchors = vec![
        Anchor { node_index: 0, target: "rect-a".into(), at: LocalPoint { x: 0, y: 0 } },
        Anchor { node_index: 1, target: "rect-a".into(), at: LocalPoint { x: 0, y: 30 * Q } },
    ];
    let scene = scene_of(vec![target, follower]);
    let ops = anchor_follow_ops(&scene, &[move_op("rect-a", translate(250.0, 20.0))], &reproject, &deform_open_path);
    assert_eq!(ops.len(), 1, "one cumulative follow op");
    let ObjectOp::EditGeometry { id, geometry } = &ops[0] else { panic!("expected edit-geometry") };
    assert_eq!(id, "edge-1");
    assert_eq!(geometry.path_string, "M 2000 160 L 2000 400");
}

#[test]
fn anchors_to_two_moved_targets_author_one_cumulative_edit() {
    let a = line("rect-a", 0, 0, 100.0, 0.0);
    let b = line("rect-b", 0, 0, 300.0, 0.0);
    let mut follower = Object::new("edge-1", "a1", polyline("M 800 0 L 2400 0"));
    follower.anchors = vec![
        Anchor { node_index: 0, target: "rect-a".into(), at: LocalPoint { x: 0, y: 0 } },
        Anchor { node_index: 1, target: "rect-b".into(), at: LocalPoint { x: 0, y: 0 } },
    ];
    let scene = scene_of(vec![a, b, follower]);
    let ops = anchor_follow_ops(
        &scene,
        &[move_op("rect-a", translate(110.0, 5.0)), move_op("rect-b", translate(310.0, 7.0))],
        &reproject,
        &deform_open_path,
    );
    assert_eq!(ops.len(), 1, "one cumulative op, not one per moved target");
    let ObjectOp::EditGeometry { id, geometry } = &ops[0] else { panic!("expected edit-geometry") };
    assert_eq!(id, "edge-1");
    assert_eq!(geometry.path_string, "M 880 40 L 2480 56");
}

#[test]
fn only_the_moved_target_node_is_rewritten() {
    let a = line("rect-a", 0, 0, 100.0, 0.0);
    let b = line("rect-b", 0, 0, 300.0, 0.0);
    let mut follower = Object::new("edge-1", "a1", polyline("M 800 0 L 2400 0"));
    follower.anchors = vec![
        Anchor { node_index: 0, target: "rect-a".into(), at: LocalPoint { x: 0, y: 0 } },
        Anchor { node_index: 1, target: "rect-b".into(), at: LocalPoint { x: 0, y: 0 } },
    ];
    let scene = scene_of(vec![a, b, follower]);
    let ops = anchor_follow_ops(&scene, &[move_op("rect-a", translate(110.0, 5.0))], &reproject, &deform_open_path);
    assert_eq!(ops.len(), 1, "one follow op for the one moved target");
    let ObjectOp::EditGeometry { id, geometry } = &ops[0] else { panic!("expected edit-geometry") };
    assert_eq!(id, "edge-1");
    assert_eq!(geometry.path_string, "M 880 40 L 2400 0");
}

#[test]
fn target_move_carries_interior_nodes_along_the_chord() {
    let target = line("rect-a", 0, 0, 200.0, 0.0);
    let mut follower = Object::new("edge-1", "a1", polyline("M 0 0 L 800 0 L 1600 0"));
    follower.anchors = vec![Anchor { node_index: 2, target: "rect-a".into(), at: LocalPoint { x: 0, y: 0 } }];
    let scene = scene_of(vec![target, follower]);
    let ops = anchor_follow_ops(&scene, &[move_op("rect-a", translate(360.0, 0.0))], &reproject, &deform_open_path);
    assert_eq!(ops.len(), 1, "one cumulative follow op");
    let ObjectOp::EditGeometry { id, geometry } = &ops[0] else { panic!("expected edit-geometry") };
    assert_eq!(id, "edge-1");
    assert_eq!(geometry.path_string, "M 0 0 L 1440 0 L 2880 0");
}

#[test]
fn interior_node_anchor_keeps_the_legacy_splice() {
    let target = line("rect-a", 0, 0, 100.0, 0.0);
    let mut follower = Object::new("edge-1", "a1", polyline("M 0 0 L 800 0 L 1600 0"));
    follower.anchors = vec![Anchor { node_index: 1, target: "rect-a".into(), at: LocalPoint { x: 0, y: 0 } }];
    let scene = scene_of(vec![target, follower]);
    let ops = anchor_follow_ops(&scene, &[move_op("rect-a", translate(110.0, 5.0))], &reproject, &deform_open_path);
    assert_eq!(ops.len(), 1, "one splice follow op");
    let ObjectOp::EditGeometry { id, geometry } = &ops[0] else { panic!("expected edit-geometry") };
    assert_eq!(id, "edge-1");
    assert_eq!(geometry.path_string, "M 0 0 L 880 40 L 1600 0");
}

#[test]
fn follower_with_a_batch_edit_geometry_is_skipped() {
    let target = line("rect-a", 0, 0, 200.0, 0.0);
    let follower = anchored_line();
    let deformed = follower.geometry.clone();
    let scene = scene_of(vec![target, follower]);
    let ops = anchor_follow_ops(
        &scene,
        &[
            move_op("rect-a", translate(250.0, 20.0)),
            ObjectOp::EditGeometry { id: "edge-1".to_string(), geometry: deformed },
        ],
        &reproject,
        &deform_open_path,
    );
    assert!(ops.is_empty(), "a batch-deformed follower is not reprojected again");
}

#[test]
fn endpoint_deform_reproduces_the_cross_core_pin_vector() {
    let target = line("t", 0, 0, 10.0, 20.0);
    let mut follower = Object::new("f", "a0", polyline("M 0 0 L 64 0"));
    follower.transform = translate(100.0, 0.0);
    follower.anchors = vec![Anchor { node_index: 1, target: "t".into(), at: LocalPoint { x: 16, y: 8 } }];
    let scene = scene_of(vec![target, follower]);
    let ops = anchor_follow_ops(&scene, &[move_op("t", translate(15.0, 27.0))], &reproject, &deform_open_path);
    assert_eq!(ops.len(), 1, "one follow op");
    let ObjectOp::EditGeometry { id, geometry } = &ops[0] else { panic!("expected edit-geometry") };
    assert_eq!(id, "f");
    assert_eq!(geometry.path_string, "M 0 0 L -664 224");
}

#[test]
fn number_spans_read_signed_decimals() {
    assert_eq!(number_spans("M 0 -12 L 3.5 x-"), vec![(2, 3), (4, 7), (10, 13), (15, 16)]);
    assert_eq!(number_spans("Z"), Vec::<(usize, usize)>::new());
}

#[test]
fn set_path_node_rewrites_one_pair_in_place() {
    assert_eq!(set_path_node("M 0 0 L 64 0 Z", 1, -5, 7), Some("M 0 0 L -5 7 Z".to_string()));
    assert_eq!(set_path_node("M 0 0 L 64 0", 0, 0, 0), None, "already there");
    assert_eq!(set_path_node("M 0 0 L 64 0", 2, 1, 1), None, "no such node");
    assert_eq!(set_path_node("M 0 0 L 64", 1, 9, 9), Some("M 0 0 L 9".to_string()), "a lone x is still addressed");
}

// --- geometry-edit follow and chains ---

/// A hydrated closed rect; the stub deriver reprojects an anchor onto the
/// nearest of its four outline vertices.
fn rect(id: &str, x0: i32, y0: i32, x1: i32, y1: i32) -> Object {
    Object::new(
        id,
        "a0",
        Geometry::from_subpaths(
            vec![SubPath {
                closed: true,
                nodes: vec![
                    PathNode::corner(x0, y0),
                    PathNode::corner(x1, y0),
                    PathNode::corner(x1, y1),
                    PathNode::corner(x0, y1),
                ],
            }],
            FillRule::EvenOdd,
        ),
    )
}

fn reshape_rect_op(id: &str, x0: i32, y0: i32, x1: i32, y1: i32) -> ObjectOp {
    let geometry = rect("ignored", x0, y0, x1, y1).geometry;
    ObjectOp::EditGeometry { id: id.to_string(), geometry }
}

fn geometry_follow(scene: &ObjectScene, ops: &[ObjectOp]) -> Vec<ObjectOp> {
    geometry_follow_ops(&StubOutlineDeriver, scene, ops, &reproject, &deform_open_path)
}

fn edit_of<'a>(ops: &'a [ObjectOp], target: &str) -> Option<&'a str> {
    ops.iter().find_map(|op| match op {
        ObjectOp::EditGeometry { id, geometry } if id == target => Some(geometry.path_string.as_str()),
        _ => None,
    })
}

#[test]
fn target_geometry_edit_reprojects_open_follower() {
    let target = rect("shape-t", 0, 0, 800, 400);
    let mut follower = Object::new("edge", "a1", polyline("M 320 160 L 800 0"));
    follower.transform = Transform3x3::identity();
    follower.anchors = vec![Anchor { node_index: 1, target: "shape-t".into(), at: LocalPoint { x: 800, y: 0 } }];
    let scene = scene_of(vec![target, follower]);

    let ops = geometry_follow(&scene, &[reshape_rect_op("shape-t", 0, 240, 800, 400)]);
    assert_eq!(ops.len(), 1, "one follow op for the reshaped target: {ops:?}");
    let ObjectOp::EditGeometry { id, geometry } = &ops[0] else {
        panic!("expected edit-geometry, got {ops:?}");
    };
    assert_eq!(id, "edge");
    assert_eq!(geometry.path_string, "M 320 160 L 800 240");

    let mut applied = scene.clone();
    let mut batch = vec![reshape_rect_op("shape-t", 0, 240, 800, 400)];
    batch.extend(ops);
    apply_object_op(&mut applied, ObjectOp::Batch { ops: batch }).expect("the follow batch applies through op-apply");
    let edge = applied.objects.iter().find(|o| o.id == "edge").unwrap();
    let (wx, wy) = world_node(edge, 1);
    assert!(
        (wx - 100.0).abs() < 1e-9 && (wy - 30.0).abs() < 1e-9,
        "the committed endpoint sits on the reshaped outline ({wx},{wy})"
    );
}

#[test]
fn follower_with_its_own_edit_in_the_batch_is_skipped_on_reshape() {
    let target = rect("shape-t", 0, 0, 800, 400);
    let mut follower = Object::new("edge", "a1", polyline("M 320 160 L 800 0"));
    follower.anchors = vec![Anchor { node_index: 1, target: "shape-t".into(), at: LocalPoint { x: 800, y: 0 } }];
    let own_edit = follower.geometry.clone();
    let scene = scene_of(vec![target, follower]);
    let ops = geometry_follow(
        &scene,
        &[
            reshape_rect_op("shape-t", 0, 240, 800, 400),
            ObjectOp::EditGeometry { id: "edge".to_string(), geometry: own_edit },
        ],
    );
    assert!(
        ops.iter().all(|op| !matches!(op, ObjectOp::EditGeometry { id, .. } if id == "edge")),
        "a follower with its own batch edit is not reprojected again: {ops:?}"
    );
}

#[test]
fn line_to_line_chain_propagates_two_hops() {
    let target = rect("shape-t", 0, 0, 800, 400);
    let mut b = Object::new("line-b", "a1", polyline("M 0 0 L 800 0"));
    b.transform = Transform3x3::identity();
    b.anchors = vec![Anchor { node_index: 1, target: "shape-t".into(), at: LocalPoint { x: 800, y: 0 } }];
    let mut a = Object::new("line-a", "a2", polyline("M 0 400 L 800 0"));
    a.transform = Transform3x3::identity();
    a.anchors = vec![Anchor { node_index: 1, target: "line-b".into(), at: LocalPoint { x: 800, y: 0 } }];
    let scene = scene_of(vec![target, b, a]);

    let ops = geometry_follow(&scene, &[move_op("shape-t", translate(50.0, 20.0))]);
    assert_eq!(edit_of(&ops, "line-b"), Some("M 0 0 L 1200 160"), "B follows T: {ops:?}");
    assert_eq!(edit_of(&ops, "line-a"), Some("M 0 400 L 1200 160"), "A follows B: {ops:?}");
}

#[test]
fn anchor_cycle_terminates() {
    let target = rect("shape-t", 0, 0, 800, 400);
    let mut b = Object::new("line-b", "a1", polyline("M 0 0 L 800 0"));
    b.anchors = vec![
        Anchor { node_index: 1, target: "shape-t".into(), at: LocalPoint { x: 800, y: 0 } },
        Anchor { node_index: 0, target: "line-a".into(), at: LocalPoint { x: 0, y: 0 } },
    ];
    let mut a = Object::new("line-a", "a2", polyline("M 0 400 L 800 0"));
    a.anchors = vec![Anchor { node_index: 1, target: "line-b".into(), at: LocalPoint { x: 800, y: 0 } }];
    let scene = scene_of(vec![target, b, a]);
    let ops = geometry_follow(&scene, &[move_op("shape-t", translate(50.0, 20.0))]);
    let count = |who: &str| {
        ops.iter().filter(|op| matches!(op, ObjectOp::EditGeometry { id, .. } if id == who)).count()
    };
    assert_eq!(count("line-b"), 1, "B reprojected exactly once despite the cycle: {ops:?}");
    assert_eq!(count("line-a"), 1, "A reprojected exactly once despite the cycle: {ops:?}");
}

#[test]
fn geometry_follow_matches_transform_follow_without_a_chain() {
    let target = line("rect-a", 0, 0, 200.0, 0.0);
    let scene = scene_of(vec![target, anchored_line()]);
    let moves = [move_op("rect-a", translate(250.0, 20.0))];
    let transform_only = anchor_follow_ops(&scene, &moves, &reproject, &deform_open_path);
    let geometry_aware = geometry_follow(&scene, &moves);
    assert_eq!(transform_only, geometry_aware, "no chain => identical to the transform follow");
}

#[test]
fn a_reshape_the_deriver_refuses_authors_nothing() {
    let target = rect("shape-t", 0, 0, 800, 400);
    let mut follower = Object::new("edge", "a1", polyline("M 320 160 L 800 0"));
    follower.anchors = vec![Anchor { node_index: 1, target: "shape-t".into(), at: LocalPoint { x: 800, y: 0 } }];
    let scene = scene_of(vec![target, follower]);
    let empty = Geometry::from_subpaths(Vec::new(), FillRule::EvenOdd);
    let ops = geometry_follow(&scene, &[ObjectOp::EditGeometry { id: "shape-t".to_string(), geometry: empty }]);
    assert!(ops.is_empty(), "a reshape with no outline reprojects nothing: {ops:?}");
}

#[test]
fn a_preview_of_a_missing_or_unmoved_node_is_none() {
    let id = Transform3x3::identity();
    let missing = reproject_geometry_node(&id, &id, &id, LocalPoint { x: 16, y: 8 }, 5, "M 0 0 L 64 0", &reproject, &compose);
    assert_eq!(missing, None, "the path has no node 5");
    let unmoved = reproject_geometry_node(&id, &id, &id, LocalPoint { x: 64, y: 0 }, 1, "M 0 0 L 64 0", &reproject, &compose);
    assert_eq!(unmoved, None, "node 1 already sits there");
}
