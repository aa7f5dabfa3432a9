use std::collections::HashSet;

use scene_core::object::catalog::gestures::{object_gesture_catalog, HoldInput, ObjectGesture, ObjectGestureCategory};
use scene_core::object::catalog::inspector::{
    object_inspector_catalog, resolve_role, AppliesTo, InspectorRole, InspectorSection, InspectorWidget, Placement,
};
use scene_core::object::model::{FillRule, Geometry, Object, ObjectScene, ObjectSelection};

fn find(id: &str) -> ObjectGesture {
    object_gesture_catalog().into_iter().find(|g| g.id == id).unwrap_or_else(|| panic!("no gesture {id}"))
}

#[test]
fn gestures_catalog_is_non_empty() {
    assert!(!object_gesture_catalog().is_empty());
}

#[test]
fn all_frozen_ids_present_exactly_once() {
    let catalog = object_gesture_catalog();
    let expected = [
        "pan-space",
        "pan-middle",
        "additive-select-shift",
        "additive-select-mod",
        "no-snap-alt",
        "partial-erase-alt",
        "coarse-rotate-shift",
        "detach-alt",
        "free-recognize-shift",
    ];
    let ids: Vec<&str> = catalog.iter().map(|g| g.id.as_str()).collect();
    assert_eq!(ids.len(), expected.len(), "catalog must hold exactly 9 gestures");
    let mut seen = HashSet::new();
    for id in &ids {
        assert!(seen.insert(*id), "duplicate id: {id}");
    }
    for id in expected {
        assert!(seen.contains(id), "missing gesture: {id}");
    }
}

#[test]
fn coarse_rotate_carries_fifteen_degrees() {
    let g = find("coarse-rotate-shift");
    assert_eq!(g.trigger.input, HoldInput::Modifier);
    assert_eq!(g.trigger.modifier.as_deref(), Some("Shift"));
    assert_eq!(g.trigger.degrees.map(f64::from_bits), Some(15.0));
    assert_eq!(g.category, ObjectGestureCategory::Transform);
}

#[test]
fn non_rotate_gestures_carry_no_degrees() {
    for g in object_gesture_catalog() {
        if g.id != "coarse-rotate-shift" {
            assert_eq!(g.trigger.degrees, None, "{} should carry no degrees", g.id);
        }
    }
}

#[test]
fn each_trigger_populates_exactly_its_input_field() {
    for g in object_gesture_catalog() {
        let t = &g.trigger;
        match t.input {
            HoldInput::Key => {
                assert!(t.key.is_some() && t.button.is_none() && t.modifier.is_none(), "{} key trigger", g.id);
            }
            HoldInput::Button => {
                assert!(t.button.is_some() && t.key.is_none() && t.modifier.is_none(), "{} button trigger", g.id);
            }
            HoldInput::Modifier => {
                assert!(t.modifier.is_some() && t.key.is_none() && t.button.is_none(), "{} modifier trigger", g.id);
            }
        }
    }
}

#[test]
fn catalog_ids_unique_and_op_kinds_real() {
    let catalog = object_inspector_catalog();
    let mut seen = HashSet::new();
    for c in &catalog {
        assert!(seen.insert(c.id.clone()), "duplicate control id {}", c.id);
    }
    let real: HashSet<&str> = [
        "set-meta",
        "set-transform",
        "set-sizing",
        "set-layout",
        "set-clip",
        "set-style",
        "set-text",
        "canonicalize",
    ]
    .into_iter()
    .collect();
    for c in &catalog {
        if let Some(k) = &c.op_kind {
            assert!(real.contains(k.as_str()), "control {} bad op_kind {k}", c.id);
        }
    }
}

#[test]
fn canonicalize_label_is_english_only() {
    let catalog = object_inspector_catalog();
    let canonicalize = catalog.iter().find(|c| c.id == "canonicalize").expect("the canonicalize action control");
    assert_eq!(canonicalize.label, "Straighten");
    assert!(
        !canonicalize.label.chars().any(|c| ('\u{ac00}'..='\u{d7a3}').contains(&c)),
        "the label must contain no Korean (Hangul syllables)"
    );
    assert!(!canonicalize.label.contains('/'), "the label is a single language, not a slash-joined pair");
}

#[test]
fn quantized_controls_carry_the_unit_scale() {
    let catalog = object_inspector_catalog();
    let scaled: Vec<&str> =
        catalog.iter().filter(|c| f64::from_bits(c.unit_scale) == 8.0).map(|c| c.id.as_str()).collect();
    assert_eq!(scaled, vec!["sizing-w", "sizing-h", "spacing", "stroke-width", "font-size"]);
    let font_size = catalog.iter().find(|c| c.id == "font-size").unwrap();
    match &font_size.widget {
        InspectorWidget::Number { unit, min, step, .. } => {
            assert_eq!(unit, "px");
            assert_eq!(min.map(f64::from_bits), Some(1.0));
            assert_eq!(f64::from_bits(*step), 1.0);
        }
        _ => panic!("font size is a number"),
    }
    assert_eq!(catalog.len(), 27);
    assert_eq!(catalog[0].section, InspectorSection::Header);
    assert_eq!(catalog[26].section, InspectorSection::Action);
}

fn obj(id: &str) -> Object {
    Object::new(id, "a0", Geometry::from_subpaths(Vec::new(), FillRule::EvenOdd))
}

#[test]
fn roles_follow_parent_layout_and_children() {
    let mut parent = obj("p");
    parent.layout = Some(scene_core::object::model::Layout {
        axis: scene_core::object::model::LayoutAxis::Horizontal,
        lanes: scene_core::object::model::Lanes::Count { value: 1 },
        spacing: 0,
        align: scene_core::object::model::Align {
            main: scene_core::object::model::MainAlign::Start,
            cross: scene_core::object::model::CrossAlign::Start,
        },
    });
    let mut child = obj("c");
    child.parent = Some("p".to_string());
    let lone = obj("l");
    let scene = ObjectScene {
        scene_version: 1,
        objects: vec![parent.clone(), child.clone(), lone.clone()],
        tags: Vec::new(),
        selection: ObjectSelection::Canvas,
        updated_at: String::new(),
    };
    let rp = resolve_role(&scene, &parent);
    assert_eq!(rp, InspectorRole { placement: Placement::Free, container: true, flow_container: true, has_text: false });
    assert_eq!(rp.label(), "Flow container");
    assert!(rp.matches(AppliesTo::FlowContainer));
    let rc = resolve_role(&scene, &child);
    assert_eq!(rc.placement, Placement::FlowChild);
    assert_eq!(rc.label(), "Flow child");
    assert!(!rc.matches(AppliesTo::FreePlaced));
    let rl = resolve_role(&scene, &lone);
    assert_eq!(rl.label(), "Free placed");
    assert!(rl.matches(AppliesTo::Always));
    assert!(!rl.matches(AppliesTo::HasText));
}
