use scene_core::object::authoring::templates::{build_template, object_template_catalog, template_to_ops};
use scene_core::object::model::{Object, Paint, GEOMETRY_QUANTUM_PER_PX};
use scene_core::object::op::ObjectOp;

/// The `n`-th id and order key the sequential allocators would hand out.
fn allocations(n: usize) -> (Vec<String>, Vec<String>) {
    ((1..=n).map(|i| format!("id-{i}")).collect(), (1..=n).map(|i| format!("o{i}")).collect())
}

fn plus(a: u64, b: u64) -> u64 {
    (f64::from_bits(a) + f64::from_bits(b)).to_bits()
}

fn build(template_id: &str, ax: f64, ay: f64) -> Vec<Object> {
    let (ids, orders) = allocations(9);
    build_template(template_id, ax.to_bits(), ay.to_bits(), &ids, &orders, &plus)
}

fn tx(o: &Object) -> f64 {
    f64::from_bits(o.transform.m[0][2])
}

fn ty(o: &Object) -> f64 {
    f64::from_bits(o.transform.m[1][2])
}

#[test]
fn decision_map_has_styled_cards_and_anchored_connector() {
    let objs = build("decision_map", 100.0, 50.0);
    assert!(objs.len() > 1);
    assert!(objs.iter().any(|o| o.fill.is_some() && o.stroke.is_some() && o.text.is_some()));
    let connectors: Vec<&Object> = objs.iter().filter(|o| o.anchors.len() == 2).collect();
    assert!(!connectors.is_empty(), "expected at least one connector");
    let c = connectors[0];
    assert_eq!(c.anchors[0].node_index, 0);
    assert_eq!(c.anchors[1].node_index, 1);
    let card_ids: Vec<&str> = objs.iter().filter(|o| o.anchors.is_empty()).map(|o| o.id.as_str()).collect();
    assert!(card_ids.contains(&c.anchors[0].target.as_str()));
    assert!(card_ids.contains(&c.anchors[1].target.as_str()));
}

#[test]
fn cards_are_offset_from_the_anchor() {
    let objs = build("decision_map", 100.0, 50.0);
    let first = &objs[0];
    assert_eq!(tx(first), 100.0);
    assert_eq!(ty(first), 50.0 + 180.0);
}

/// World-px bounds of a closed rect. `None` for open geometry.
fn world_box(o: &Object) -> Option<(f64, f64, f64, f64)> {
    let sp = o.geometry.subpaths.first()?;
    if !sp.closed {
        return None;
    }
    let (mut minx, mut miny, mut maxx, mut maxy) = (i32::MAX, i32::MAX, i32::MIN, i32::MIN);
    for n in &sp.nodes {
        minx = minx.min(n.x);
        miny = miny.min(n.y);
        maxx = maxx.max(n.x);
        maxy = maxy.max(n.y);
    }
    let q = f64::from(GEOMETRY_QUANTUM_PER_PX);
    let (x, y) = (tx(o), ty(o));
    Some((x + f64::from(minx) / q, y + f64::from(miny) / q, x + f64::from(maxx) / q, y + f64::from(maxy) / q))
}

fn boxes_overlap(a: (f64, f64, f64, f64), b: (f64, f64, f64, f64)) -> bool {
    a.0 < b.2 && b.0 < a.2 && a.1 < b.3 && b.1 < a.3
}

#[test]
fn todo_board_is_grouped_with_parents_and_children() {
    let objs = build("todo_board", 0.0, 0.0);
    let parents: Vec<&Object> = objs.iter().filter(|o| o.parent.is_none()).collect();
    let children: Vec<&Object> = objs.iter().filter(|o| o.parent.is_some()).collect();
    assert_eq!(parents.len(), 3, "three grouped columns");
    assert!(children.len() >= 3, "columns hold task cards");
    let parent_ids: Vec<&str> = parents.iter().map(|o| o.id.as_str()).collect();
    for c in &children {
        let p = c.parent.as_deref().unwrap();
        assert!(parent_ids.contains(&p), "child {} parent {p} not in recipe", c.id);
    }
    let first_child = objs.iter().position(|o| o.parent.is_some()).unwrap();
    assert!(objs[..first_child].iter().all(|o| o.parent.is_none()), "parents must precede children");
    assert!(parents.iter().all(|o| matches!(o.fill.as_ref().map(|f| &f.paint), Some(Paint::Token { .. }))));
}

#[test]
fn presentation_groups_slides_under_a_deck() {
    let objs = build("presentation", 0.0, 0.0);
    let parents: Vec<&Object> = objs.iter().filter(|o| o.parent.is_none()).collect();
    let children: Vec<&Object> = objs.iter().filter(|o| o.parent.is_some()).collect();
    assert_eq!(parents.len(), 1, "one deck frame");
    assert_eq!(children.len(), 4, "four slides under the deck");
    let deck = parents[0];
    assert!(children.iter().all(|c| c.parent.as_deref() == Some(deck.id.as_str())));
    let slide_boxes: Vec<(f64, f64, f64, f64)> = children.iter().filter_map(|o| world_box(o)).collect();
    assert_eq!(slide_boxes.len(), 4);
    for i in 0..slide_boxes.len() {
        for j in (i + 1)..slide_boxes.len() {
            assert!(!boxes_overlap(slide_boxes[i], slide_boxes[j]), "slides {i} and {j} overlap");
        }
    }
}

#[test]
fn decision_map_connectors_resolve_to_distinct_non_overlapping_cards() {
    let objs = build("decision_map", 0.0, 0.0);
    let cards: Vec<&Object> = objs.iter().filter(|o| o.anchors.is_empty()).collect();
    let connectors: Vec<&Object> = objs.iter().filter(|o| o.anchors.len() == 2).collect();
    assert_eq!(cards.len(), 5, "decision point + 2 options + 2 outcomes");
    assert!(connectors.len() >= 4, "four anchored connectors");
    let card_ids: Vec<&str> = cards.iter().map(|o| o.id.as_str()).collect();
    for e in &connectors {
        let (a, b) = (e.anchors[0].target.as_str(), e.anchors[1].target.as_str());
        assert_ne!(a, b, "connector endpoints must differ");
        assert!(card_ids.contains(&a) && card_ids.contains(&b), "anchors resolve to cards");
    }
    let boxes: Vec<(f64, f64, f64, f64)> = cards.iter().filter_map(|o| world_box(o)).collect();
    assert_eq!(boxes.len(), 5);
    for i in 0..boxes.len() {
        for j in (i + 1)..boxes.len() {
            assert!(!boxes_overlap(boxes[i], boxes[j]), "cards {i} and {j} overlap");
        }
    }
}

#[test]
fn template_to_ops_wraps_each_object() {
    let objs = build("idea_board", 0.0, 0.0);
    let n = objs.len();
    assert!(n > 0);
    let ids: Vec<String> = objs.iter().map(|o| o.id.clone()).collect();
    let ops = template_to_ops(objs);
    assert_eq!(ops.len(), n);
    for (op, want_id) in ops.iter().zip(ids.iter()) {
        match op {
            ObjectOp::InsertObject { object } => assert_eq!(&object.id, want_id),
            other => panic!("expected insert-object, got {}", other.kind()),
        }
    }
}

#[test]
fn ids_and_orders_come_from_allocators_deterministically() {
    let a = build("decision_map", 7.0, 7.0);
    let b = build("decision_map", 7.0, 7.0);
    assert_eq!(a, b);
    for (i, o) in a.iter().enumerate() {
        assert_eq!(o.id, format!("id-{}", i + 1));
        assert_eq!(o.order, format!("o{}", i + 1));
    }
}

#[test]
fn unknown_template_is_empty() {
    assert!(build("nope", 0.0, 0.0).is_empty());
}

#[test]
fn stub_template_is_one_titled_card() {
    let objs = build("adr", 0.0, 0.0);
    assert_eq!(objs.len(), 1);
    assert!(objs[0].text.is_some());
    assert!(objs[0].fill.is_some());
}

#[test]
fn every_catalog_template_builds_objects() {
    for meta in object_template_catalog() {
        assert!(!build(meta.id, 0.0, 0.0).is_empty(), "{} builds nothing", meta.id);
    }
}

#[test]
fn todo_board_takes_ids_in_creation_order() {
    let objs = build("todo_board", 10.0, 20.0);
    let ids: Vec<&str> = objs.iter().map(|o| o.id.as_str()).collect();
    assert_eq!(ids, vec!["id-1", "id-4", "id-7", "id-2", "id-3", "id-5", "id-6", "id-8", "id-9"]);
    assert_eq!(objs[3].parent.as_deref(), Some("id-1"));
    assert_eq!(objs[5].parent.as_deref(), Some("id-4"));
    assert_eq!((tx(&objs[4]), ty(&objs[4])), (30.0, 170.0));
    assert_eq!(objs[0].geometry.path_string, "M 0 0 L 1920 0 L 1920 3680 L 0 3680 Z");
}
