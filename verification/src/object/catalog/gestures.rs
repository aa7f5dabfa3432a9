//! The hold-key gesture catalog: the press-and-hold input gestures, the held
//! input each binds, and any numeric parameter. The ids are frozen.

use vstd::prelude::*;

use crate::graph::views;

verus! {

/// What a gesture does while its input is held.
#[derive(Clone, Copy, Debug, PartialEq, Eq, Hash, Structural)]
pub enum ObjectGestureCategory {
    /// Viewport panning.
    Pan,
    /// Adding to the current selection.
    Select,
    /// Suppressing snap-to-geometry.
    Snap,
    /// Partial (eraser-style) erase.
    Erase,
    /// Coarsening a transform (rotation step).
    Transform,
    /// Detaching anchors.
    Anchor,
    /// Forcing free-form pen recognition.
    Draw,
}

/// Which physical input must be held.
#[derive(Clone, Copy, Debug, PartialEq, Eq, Hash, Structural)]
pub enum HoldInput {
    Key,
    Button,
    Modifier,
}

/// The held input: exactly one of `key`, `button`, `modifier` is set, the one
/// `input` names; `degrees` (an `f64` bit pattern) is an optional parameter.
#[derive(Clone, Debug, PartialEq)]
pub struct HoldTrigger {
    pub input: HoldInput,
    pub key: Option<String>,
    pub button: Option<String>,
    pub modifier: Option<String>,
    pub degrees: Option<u64>,
}

pub struct HoldTriggerView {
    pub input: HoldInput,
    pub key: Option<Seq<char>>,
    pub button: Option<Seq<char>>,
    pub modifier: Option<Seq<char>>,
    pub degrees: Option<u64>,
}

impl View for HoldTrigger {
    type V = HoldTriggerView;

    open spec fn view(&self) -> HoldTriggerView {
        HoldTriggerView {
            input: self.input,
            key: crate::model::opt_str(self.key),
            button: crate::model::opt_str(self.button),
            modifier: crate::model::opt_str(self.modifier),
            degrees: self.degrees,
        }
    }
}

/// One hold-key gesture.
#[derive(Clone, Debug, PartialEq)]
pub struct ObjectGesture {
    pub id: String,
    pub label: String,
    pub category: ObjectGestureCategory,
    pub trigger: HoldTrigger,
    pub description: String,
}

pub struct ObjectGestureView {
    pub id: Seq<char>,
    pub label: Seq<char>,
    pub category: ObjectGestureCategory,
    pub trigger: HoldTriggerView,
    pub description: Seq<char>,
}

impl View for ObjectGesture {
    type V = ObjectGestureView;

    open spec fn view(&self) -> ObjectGestureView {
        ObjectGestureView {
            id: self.id@,
            label: self.label@,
            category: self.category,
            trigger: self.trigger@,
            description: self.description@,
        }
    }
}

/// The bit pattern of the `f64` fifteen.
pub const FIFTEEN_BITS: u64 = 0x402e_0000_0000_0000;

/// A trigger by a held key.
pub open spec fn key_trigger(key: Seq<char>) -> HoldTriggerView {
    HoldTriggerView { input: HoldInput::Key, key: Some(key), button: None, modifier: None, degrees: None }
}

/// A trigger by a held mouse button.
pub open spec fn button_trigger(button: Seq<char>) -> HoldTriggerView {
    HoldTriggerView { input: HoldInput::Button, key: None, button: Some(button), modifier: None, degrees: None }
}

/// A trigger by a held modifier.
pub open spec fn modifier_trigger(modifier: Seq<char>) -> HoldTriggerView {
    HoldTriggerView { input: HoldInput::Modifier, key: None, button: None, modifier: Some(modifier), degrees: None }
}

/// A catalog entry.
pub open spec fn gesture(
    id: &str,
    label: &str,
    category: ObjectGestureCategory,
    trigger: HoldTriggerView,
    description: &str,
) -> ObjectGestureView {
    ObjectGestureView { id: id@, label: label@, category, trigger, description: description@ }
}

/// The gesture catalog, in display order grouped by category.
pub open spec fn gesture_catalog() -> Seq<ObjectGestureView> {
    seq![
        gesture("pan-space", "Pan (Space)", ObjectGestureCategory::Pan, key_trigger("Space"@), "Hold Space to pan the viewport by dragging."),
        gesture("pan-middle", "Pan (Middle Button)", ObjectGestureCategory::Pan, button_trigger("middle"@), "Hold the middle mouse button to pan the viewport by dragging."),
        gesture("additive-select-shift", "Add to Selection (Shift)", ObjectGestureCategory::Select, modifier_trigger("Shift"@), "Hold Shift while selecting to add to the current selection."),
        gesture("additive-select-mod", "Add to Selection (Cmd/Ctrl)", ObjectGestureCategory::Select, modifier_trigger("Mod"@), "Hold the primary modifier (Cmd/Ctrl) while selecting to add to the current selection."),
        gesture("no-snap-alt", "Disable Snap (Alt)", ObjectGestureCategory::Snap, modifier_trigger("Alt"@), "Hold Alt to suppress snapping while moving or inserting."),
        gesture("partial-erase-alt", "Partial Erase (Alt)", ObjectGestureCategory::Erase, modifier_trigger("Alt"@), "Hold Alt with the erase tool to erase partial geometry instead of whole objects."),
        gesture("coarse-rotate-shift", "Fine Rotate (Shift)", ObjectGestureCategory::Transform, HoldTriggerView { degrees: Some(FIFTEEN_BITS), ..modifier_trigger("Shift"@) }, "Rotation snaps to 15-degree steps by default; hold Shift to rotate freely (fine)."),
        gesture("detach-alt", "Detach Anchors (Alt)", ObjectGestureCategory::Anchor, modifier_trigger("Alt"@), "Hold Alt while dragging an anchored object to move it whole, ignoring its anchors and detaching them."),
        gesture("free-recognize-shift", "Free-form Recognition (Shift)", ObjectGestureCategory::Draw, modifier_trigger("Shift"@), "Hold Shift while drawing with the pen to recognize the stroke as a free-form shape instead of snapping to a basic shape (release returns to Basic)."),
    ]
}

fn key(held: &str) -> (r: HoldTrigger)
    ensures
        r@ == key_trigger(held@),
{
    HoldTrigger { input: HoldInput::Key, key: Some(held.to_owned()), button: None, modifier: None, degrees: None }
}

fn button(held: &str) -> (r: HoldTrigger)
    ensures
        r@ == button_trigger(held@),
{
    HoldTrigger { input: HoldInput::Button, key: None, button: Some(held.to_owned()), modifier: None, degrees: None }
}

fn modifier(held: &str) -> (r: HoldTrigger)
    ensures
        r@ == modifier_trigger(held@),
{
    HoldTrigger { input: HoldInput::Modifier, key: None, button: None, modifier: Some(held.to_owned()), degrees: None }
}

fn entry(id: &str, label: &str, category: ObjectGestureCategory, trigger: HoldTrigger, description: &str) -> (r:
    ObjectGesture)
    ensures
        r@ == gesture(id, label, category, trigger@, description),
{
    ObjectGesture {
        id: id.to_owned(),
        label: label.to_owned(),
        category,
        trigger,
        description: description.to_owned(),
    }
}

/// The hold-key gestures, in display order grouped by category (see
/// [`gesture_catalog`]).
pub fn object_gesture_catalog() -> (r: Vec<ObjectGesture>)
    ensures
        views(r@) == gesture_catalog(),
{
    let mut rotate = modifier("Shift");
    rotate.degrees = Some(FIFTEEN_BITS);
    let mut r: Vec<ObjectGesture> = Vec::new();
    r.push(entry("pan-space", "Pan (Space)", ObjectGestureCategory::Pan, key("Space"), "Hold Space to pan the viewport by dragging."));
    r.push(entry("pan-middle", "Pan (Middle Button)", ObjectGestureCategory::Pan, button("middle"), "Hold the middle mouse button to pan the viewport by dragging."));
    r.push(entry("additive-select-shift", "Add to Selection (Shift)", ObjectGestureCategory::Select, modifier("Shift"), "Hold Shift while selecting to add to the current selection."));
    r.push(entry("additive-select-mod", "Add to Selection (Cmd/Ctrl)", ObjectGestureCategory::Select, modifier("Mod"), "Hold the primary modifier (Cmd/Ctrl) while selecting to add to the current selection."));
    r.push(entry("no-snap-alt", "Disable Snap (Alt)", ObjectGestureCategory::Snap, modifier("Alt"), "Hold Alt to suppress snapping while moving or inserting."));
    r.push(entry("partial-erase-alt", "Partial Erase (Alt)", ObjectGestureCategory::Erase, modifier("Alt"), "Hold Alt with the erase tool to erase partial geometry instead of whole objects."));
    r.push(entry("coarse-rotate-shift", "Fine Rotate (Shift)", ObjectGestureCategory::Transform, rotate, "Rotation snaps to 15-degree steps by default; hold Shift to rotate freely (fine)."));
    r.push(entry("detach-alt", "Detach Anchors (Alt)", ObjectGestureCategory::Anchor, modifier("Alt"), "Hold Alt while dragging an anchored object to move it whole, ignoring its anchors and detaching them."));
    r.push(entry("free-recognize-shift", "Free-form Recognition (Shift)", ObjectGestureCategory::Draw, modifier("Shift"), "Hold Shift while drawing with the pen to recognize the stroke as a free-form shape instead of snapping to a basic shape (release returns to Basic)."));
    proof {
        assert(views(r@) =~= gesture_catalog());
    }
    r
}

} // verus!
