use std::collections::HashSet;

use scene_core::command::{command_catalog, CommandCategory};
use scene_core::object::catalog::theme::{resolve_token, Token, ALL_TOKENS};

#[test]
fn enumeration_is_non_empty_and_names_are_unique() {
    assert!(!ALL_TOKENS.is_empty());
    let mut names: Vec<&str> = ALL_TOKENS.iter().map(|t| t.name()).collect();
    let count = names.len();
    names.sort_unstable();
    names.dedup();
    assert_eq!(names.len(), count, "token names must be unique");
}

#[test]
fn name_round_trips_through_from_name() {
    for t in ALL_TOKENS {
        assert_eq!(Token::from_name(t.name()), Some(t));
    }
}

#[test]
fn resolve_known_tokens_differ_by_mode() {
    for name in ["canvas-bg", "text", "shadow"] {
        let light = resolve_token(name, false).expect("light");
        let dark = resolve_token(name, true).expect("dark");
        assert_ne!(light, dark, "{name} must differ light vs dark");
    }
}

#[test]
fn shadow_is_translucent_in_both_modes() {
    assert!(resolve_token("shadow", false).unwrap()[3] < 0xff);
    assert!(resolve_token("shadow", true).unwrap()[3] < 0xff);
}

#[test]
fn selection_ring_is_a_blue_accent_in_both_modes() {
    for dark in [false, true] {
        let [r, g, b, a] = resolve_token("selection-ring", dark).unwrap();
        assert_eq!(a, 0xff, "ring is opaque");
        assert!(b > r && b > g, "blue dominates in {} mode", if dark { "dark" } else { "light" });
    }
}

#[test]
fn unknown_token_resolves_to_none() {
    assert_eq!(resolve_token("not-a-token", false), None);
    assert_eq!(resolve_token("not-a-token", true), None);
    assert_eq!(Token::from_name("surface "), None);
}

#[test]
fn material_language_tokens_have_locked_rgba() {
    assert_eq!(resolve_token("material", false), Some([0xf7, 0xf7, 0xf9, 0xe6]));
    assert_eq!(resolve_token("material", true), Some([0x2c, 0x2c, 0x2e, 0xe6]));
    assert_eq!(resolve_token("hairline", false), Some([0x00, 0x00, 0x00, 0x1f]));
    assert_eq!(resolve_token("hairline", true), Some([0xff, 0xff, 0xff, 0x26]));
    assert_eq!(resolve_token("hover", false), Some([0x00, 0x00, 0x00, 0x14]));
    assert_eq!(resolve_token("hover", true), Some([0xff, 0xff, 0xff, 0x1f]));
    assert_eq!(resolve_token("accent-soft", false), Some([0x00, 0x7a, 0xff, 0x26]));
    assert_eq!(resolve_token("accent-soft", true), Some([0x0a, 0x84, 0xff, 0x3d]));
    assert_eq!(resolve_token("text-secondary", false), Some([0x8a, 0x8a, 0x8e, 0xff]));
    assert_eq!(resolve_token("text-secondary", true), Some([0x98, 0x98, 0x9d, 0xff]));
    assert!(resolve_token("material", false).unwrap()[3] < 0xff);
    assert!(resolve_token("material", true).unwrap()[3] < 0xff);
}

#[test]
fn token_rgba_matches_resolve_by_name() {
    for t in ALL_TOKENS {
        assert_eq!(resolve_token(t.name(), false), Some(t.rgba(false)));
        assert_eq!(resolve_token(t.name(), true), Some(t.rgba(true)));
    }
    assert_eq!(Token::CanvasBg.name(), "canvas-bg");
}

#[test]
fn command_catalog_is_non_empty() {
    assert!(!command_catalog().is_empty());
}

#[test]
fn ids_are_unique() {
    let catalog = command_catalog();
    let mut seen = HashSet::new();
    for cmd in &catalog {
        assert!(seen.insert(cmd.id.as_str()), "duplicate id: {}", cmd.id);
    }
    assert_eq!(seen.len(), catalog.len());
}

#[test]
fn every_command_has_a_category() {
    let categories: HashSet<CommandCategory> =
        command_catalog().iter().map(|c| c.category).collect();
    for expected in [
        CommandCategory::Tool,
        CommandCategory::Shape,
        CommandCategory::View,
        CommandCategory::Edit,
        CommandCategory::Selection,
        CommandCategory::Template,
        CommandCategory::Canvas,
    ] {
        assert!(categories.contains(&expected), "no command in category {:?}", expected);
    }
}

#[test]
fn mod_token_used_for_primary_modifier() {
    let copy = command_catalog().into_iter().find(|c| c.id == "copy").unwrap();
    assert_eq!(copy.default_shortcut.as_deref(), Some("Mod+C"));
}

#[test]
fn align_left_has_no_shortcut() {
    let cmd = command_catalog().into_iter().find(|c| c.id == "align-left").unwrap();
    assert!(cmd.default_shortcut.is_none());
}
