use scene_core::fractional::{key_above, next_order_key};
use scene_core::object::authoring::edit::{duplicate_ops, DUPLICATE_OFFSET_BITS};
use scene_core::object::model::{FillRule, Geometry, Object, ObjectScene, ObjectSelection, Transform3x3};
use scene_core::object::op::ObjectOp;

fn polyline(d: &str) -> Geometry {
    let mut g = Geometry { path_string: d.to_string(), fill_rule: FillRule::EvenOdd, subpaths: Vec::new() };
    g.ensure_parsed().unwrap();
    g
}

fn translate(tx: f64, ty: f64) -> Transform3x3 {
    let one = 1f64.to_bits();
    let zero = 0f64.to_bits();
    Transform3x3 { m: [[one, zero, tx.to_bits()], [zero, one, ty.to_bits()], [zero, zero, one]] }
}

/// `a · b` in `f64`, row-major.
fn mul(a: &Transform3x3, b: &Transform3x3) -> Transform3x3 {
    let mut m = [[0u64; 3]; 3];
    for (i, row) in m.iter_mut().enumerate() {
        for (j, cell) in row.iter_mut().enumerate() {
            let mut s = 0.0f64;
            for k in 0..3 {
                s += f64::from_bits(a.m[i][k]) * f64::from_bits(b.m[k][j]);
            }
            *cell = s.to_bits();
        }
    }
    Transform3x3 { m }
}

/// The canonical duplicate shift: a world translate by the offset.
fn shift(t: &Transform3x3) -> Transform3x3 {
    let d = f64::from_bits(DUPLICATE_OFFSET_BITS);
    mul(&translate(d, d), t)
}

fn obj(id: &str, order: &str, tx: f64, ty: f64) -> Object {
    let mut o = Object::new(id, order, polyline("M 0 0 L 8 0"));
    o.transform = translate(tx, ty);
    o
}

fn scene_of(objects: Vec<Object>) -> ObjectScene {
    ObjectScene {
        scene_version: 1,
        objects,
        tags: Vec::new(),
        selection: ObjectSelection::Canvas,
        updated_at: String::new(),
    }
}

fn inserted(ops: &[ObjectOp]) -> Vec<&Object> {
    ops.iter()
        .filter_map(|op| match op {
            ObjectOp::InsertObject { object } => Some(object),
            _ => None,
        })
        .collect()
}

fn tx_ty(t: &Transform3x3) -> (f64, f64) {
    (f64::from_bits(t.m[0][2]), f64::from_bits(t.m[1][2]))
}

#[test]
fn duplicate_clones_get_fresh_ids_order_and_the_canonical_offset() {
    let scene = scene_of(vec![obj("a", "a0", 100.0, 50.0), obj("b", "a1", 200.0, 60.0)]);
    let ops = duplicate_ops(&scene, &["a".to_string(), "b".to_string()], "dup", 0, &shift);
    let clones = inserted(&ops);
    assert_eq!(clones.len(), 2, "one insert per selected id");
    assert_eq!(clones[0].id, "dup-0");
    assert_eq!(clones[1].id, "dup-1");
    assert!(scene.get("dup-0").is_none() && scene.get("dup-1").is_none());
    assert_eq!(tx_ty(&clones[0].transform), (140.0, 90.0));
    assert_eq!(tx_ty(&clones[1].transform), (240.0, 100.0));
    assert!(clones[0].order.as_str() > "a1", "clone above top: {}", clones[0].order);
    assert!(clones[1].order > clones[0].order, "clones ascend");
}

#[test]
fn duplicate_is_non_colliding_on_repeat() {
    let mut scene = scene_of(vec![obj("a", "a0", 0.0, 0.0)]);
    let first = duplicate_ops(&scene, &["a".to_string()], "dup", 0, &shift);
    let ObjectOp::InsertObject { object: clone1 } = &first[0] else { panic!() };
    scene.objects.push(clone1.clone());
    let second = duplicate_ops(&scene, &["a".to_string()], "dup", 1, &shift);
    let ObjectOp::InsertObject { object: clone2 } = &second[0] else { panic!() };
    assert_ne!(clone1.id, clone2.id, "fresh id on repeat");
    assert_ne!(clone1.order, clone2.order, "fresh order on repeat");
    assert!(clone2.order.as_str() > clone1.order.as_str(), "second clone lands on top");
}

#[test]
fn duplicate_skips_unknown_ids() {
    let scene = scene_of(vec![obj("a", "a0", 0.0, 0.0)]);
    let ops = duplicate_ops(&scene, &["ghost".to_string(), "a".to_string()], "dup", 0, &shift);
    let clones = inserted(&ops);
    assert_eq!(clones.len(), 1, "only the live id clones");
    assert_eq!(clones[0].id, "dup-0", "the unknown id does not consume an index gap it cannot fill");
}

#[test]
fn duplicate_keeps_everything_but_id_order_and_transform() {
    let mut src = obj("a", "a0", 10.0, 20.0);
    src.parent = Some("frame".to_string());
    src.tags = vec!["t".to_string()];
    src.clip = Some(true);
    let scene = scene_of(vec![obj("frame", "a0", 0.0, 0.0), src.clone()]);
    let ops = duplicate_ops(&scene, &["a".to_string()], "copy", 7, &shift);
    let clones = inserted(&ops);
    assert_eq!(clones.len(), 1);
    let c = clones[0];
    assert_eq!(c.id, "copy-7");
    assert_eq!(c.order, "a1");
    assert_eq!(c.parent, src.parent);
    assert_eq!(c.geometry, src.geometry);
    assert_eq!(c.tags, src.tags);
    assert_eq!(c.clip, src.clip);
    assert_eq!(tx_ty(&c.transform), (50.0, 60.0));
}

#[test]
fn duplicate_index_wraps_after_the_largest_seed() {
    let scene = scene_of(vec![obj("a", "a0", 0.0, 0.0), obj("b", "a5", 0.0, 0.0)]);
    let ops = duplicate_ops(&scene, &["a".to_string(), "b".to_string()], "d", u32::MAX, &shift);
    let clones = inserted(&ops);
    assert_eq!(clones[0].id, format!("d-{}", u32::MAX));
    assert_eq!(clones[1].id, "d-0");
    assert_eq!(clones[0].order, "a6");
    assert_eq!(clones[1].order, "a7");
}

#[test]
fn duplicate_of_nothing_is_empty() {
    let scene = scene_of(vec![obj("a", "a0", 0.0, 0.0)]);
    assert!(duplicate_ops(&scene, &[], "dup", 0, &shift).is_empty());
    assert!(duplicate_ops(&scene, &["x".to_string()], "dup", 0, &shift).is_empty());
}

#[test]
fn next_order_key_is_above_the_greatest_order() {
    assert_eq!(next_order_key(&scene_of(Vec::new())), "a0");
    let scene = scene_of(vec![obj("a", "a3", 0.0, 0.0), obj("b", "a1", 0.0, 0.0), obj("c", "a2V", 0.0, 0.0)]);
    assert_eq!(next_order_key(&scene), "a4");
}

#[test]
fn key_above_appends_a_tilde_to_a_malformed_key() {
    assert_eq!(key_above("a0"), "a1");
    assert_eq!(key_above("bad"), "bae");
    assert_eq!(key_above("0x"), "0x~");
    assert_eq!(key_above("a"), "a~");
    assert!(key_above("0x").as_str() > "0x");
}
