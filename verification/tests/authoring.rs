use scene_core::object::authoring::edit::{move_roots_for, MoveRoots};
use scene_core::object::authoring::templates::{
    object_template_catalog, semantic_preset_style, semantic_presets, template_to_ops,
    TemplateCategory,
};
use scene_core::object::model::{Fill, FillRule, Geometry, Object, ObjectSelection, Paint};
use scene_core::object::op::ObjectOp;

#[test]
fn catalog_is_non_empty_and_unique() {
    let cat = object_template_catalog();
    assert!(!cat.is_empty());
    let mut ids: Vec<&str> = cat.iter().map(|m| m.id).collect();
    ids.sort_unstable();
    let before = ids.len();
    ids.dedup();
    assert_eq!(before, ids.len());
    for want in ["decision_map", "todo_board", "idea_board", "wiki_note"] {
        assert!(cat.iter().any(|m| m.id == want), "missing {want}");
    }
}

#[test]
fn catalog_order_and_categories() {
    let cat = object_template_catalog();
    assert_eq!(cat.len(), 9);
    assert_eq!(cat[0].id, "todo_board");
    assert_eq!(cat[0].category, TemplateCategory::Planning);
    assert_eq!(cat[2].category, TemplateCategory::Presentation);
    assert_eq!(cat[8].label, "Server Architecture");
}

#[test]
fn semantic_preset_risk_is_reddish() {
    let (fill, stroke, text) = semantic_preset_style("risk");
    let Some(Fill { paint: Paint::Solid { color }, .. }) = fill else {
        panic!("expected a solid fill");
    };
    assert_eq!(color, "#fff8f1");
    assert!(stroke.is_some());
    assert!(text.is_some());
}

#[test]
fn semantic_presets_all_resolve() {
    let presets = semantic_presets();
    assert_eq!(presets.len(), 12);
    for p in presets {
        let (fill, stroke, text) = semantic_preset_style(p);
        assert!(fill.is_some() && stroke.is_some() && text.is_some(), "{p}");
    }
    let (fill, _, _) = semantic_preset_style("nope");
    let Some(Fill { paint: Paint::Solid { color }, .. }) = fill else {
        panic!("default fill");
    };
    assert_eq!(color, "#ffffff");
}

#[test]
fn preset_stroke_is_one_pixel_at_full_opacity() {
    let (fill, stroke, text) = semantic_preset_style("decision_point");
    let stroke = stroke.unwrap();
    assert_eq!(stroke.width, 8);
    assert_eq!(f64::from_bits(stroke.opacity), 1.0);
    assert_eq!(f64::from_bits(fill.unwrap().opacity), 1.0);
    assert_eq!(text.unwrap(), "#102033");
}

#[test]
fn template_ops_keep_recipe_order() {
    let objs = vec![
        Object::new("a", "a0", Geometry::from_subpaths(Vec::new(), FillRule::NonZero)),
        Object::new("b", "a1", Geometry::from_subpaths(Vec::new(), FillRule::NonZero)),
    ];
    let ops = template_to_ops(objs);
    assert_eq!(ops.len(), 2);
    match &ops[1] {
        ObjectOp::InsertObject { object } => assert_eq!(object.id, "b"),
        _ => panic!("expected an insert"),
    }
}

#[test]
fn pick_outside_multi_is_single_root() {
    let sel = ObjectSelection::Multi { ids: vec!["a".into(), "b".into()] };
    assert!(matches!(move_roots_for(&sel, "c"), MoveRoots::Single(id) if id == "c"));
    assert!(matches!(
        move_roots_for(&ObjectSelection::Object { id: "a".into() }, "a"),
        MoveRoots::Single(id) if id == "a"
    ));
    assert!(matches!(move_roots_for(&ObjectSelection::Canvas, "a"), MoveRoots::Single(id) if id == "a"));
}

