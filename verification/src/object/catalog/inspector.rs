//! The inspector catalog: the object-property controls the panel offers,
//! how each lowers to an op, and the role of an object that decides which
//! controls apply to it.

use vstd::prelude::*;

use crate::graph::views;
use crate::object::binding::grouping::{has_child, has_children};
use crate::object::model::{find_object, Object, ObjectSceneView, ObjectScene, ObjectView};
use crate::text::strs;

verus! {

/// Where a control lives in the panel.
#[derive(Clone, Copy, Debug, PartialEq, Eq, Hash, Structural)]
pub enum InspectorSection {
    Header,
    Placement,
    Layout,
    Appearance,
    Text,
    Action,
}

/// The widget a control renders as; a number's bounds and step (`f64` bit
/// patterns) are hints.
#[derive(Clone, Debug, PartialEq)]
pub enum InspectorWidget {
    Text,
    Toggle,
    Badge,
    Button,
    Paint,
    Number { unit: String, min: Option<u64>, max: Option<u64>, step: u64 },
    Segment { options: Vec<String> },
    Lanes,
    Align9,
}

pub enum WidgetView {
    Text,
    Toggle,
    Badge,
    Button,
    Paint,
    Number { unit: Seq<char>, min: Option<u64>, max: Option<u64>, step: u64 },
    Segment { options: Seq<Seq<char>> },
    Lanes,
    Align9,
}

impl View for InspectorWidget {
    type V = WidgetView;

    open spec fn view(&self) -> WidgetView {
        match self {
            InspectorWidget::Text => WidgetView::Text,
            InspectorWidget::Toggle => WidgetView::Toggle,
            InspectorWidget::Badge => WidgetView::Badge,
            InspectorWidget::Button => WidgetView::Button,
            InspectorWidget::Paint => WidgetView::Paint,
            InspectorWidget::Number { unit, min, max, step } => WidgetView::Number {
                unit: unit@,
                min: *min,
                max: *max,
                step: *step,
            },
            InspectorWidget::Segment { options } => WidgetView::Segment { options: strs(options@) },
            InspectorWidget::Lanes => WidgetView::Lanes,
            InspectorWidget::Align9 => WidgetView::Align9,
        }
    }
}

/// Which roles a control is offered for.
#[derive(Clone, Copy, Debug, PartialEq, Eq, Hash, Structural)]
pub enum AppliesTo {
    Always,
    FreePlaced,
    FlowChild,
    Container,
    FlowContainer,
    HasText,
}

/// One inspector control and how it lowers to an op. `unit_scale` (an `f64`
/// bit pattern) is the quantized units per px of the stored value.
#[derive(Clone, Debug, PartialEq)]
pub struct InspectorControl {
    pub id: String,
    pub label: String,
    pub section: InspectorSection,
    pub widget: InspectorWidget,
    pub applies_to: AppliesTo,
    pub op_kind: Option<String>,
    pub field: Option<String>,
    pub unit_scale: u64,
    pub description: String,
}

pub struct InspectorControlView {
    pub id: Seq<char>,
    pub label: Seq<char>,
    pub section: InspectorSection,
    pub widget: WidgetView,
    pub applies_to: AppliesTo,
    pub op_kind: Option<Seq<char>>,
    pub field: Option<Seq<char>>,
    pub unit_scale: u64,
    pub description: Seq<char>,
}

impl View for InspectorControl {
    type V = InspectorControlView;

    open spec fn view(&self) -> InspectorControlView {
        InspectorControlView {
            id: self.id@,
            label: self.label@,
            section: self.section,
            widget: self.widget@,
            applies_to: self.applies_to,
            op_kind: crate::model::opt_str(self.op_kind),
            field: crate::model::opt_str(self.field),
            unit_scale: self.unit_scale,
            description: self.description@,
        }
    }
}

/// The bit pattern of the `f64` zero.
pub const ZERO_BITS: u64 = 0;

/// The bit pattern of the `f64` one.
pub const ONE_BITS: u64 = 0x3ff0_0000_0000_0000;

/// The bit pattern of the `f64` eight, the quantized units per logical px.
pub const QUANTUM_BITS: u64 = 0x4020_0000_0000_0000;

/// A catalog entry.
pub open spec fn control_view(
    id: &str,
    label: &str,
    section: InspectorSection,
    widget: WidgetView,
    applies_to: AppliesTo,
    op_kind: Option<Seq<char>>,
    field: Option<Seq<char>>,
    unit_scale: u64,
    description: &str,
) -> InspectorControlView {
    InspectorControlView {
        id: id@,
        label: label@,
        section,
        widget,
        applies_to,
        op_kind,
        field,
        unit_scale,
        description: description@,
    }
}

/// The inspector controls, in panel order.
pub open spec fn inspector_catalog() -> Seq<InspectorControlView> {
    seq![
        control_view("name", "Name", InspectorSection::Header, WidgetView::Text, AppliesTo::Always, Some("set-meta"@), Some("name"@), ONE_BITS, "Panel display name for the object."),
        control_view("visible", "Visible", InspectorSection::Header, WidgetView::Toggle, AppliesTo::Always, Some("set-meta"@), Some("hidden"@), ONE_BITS, "Show or hide the object (toggles the stored `hidden` flag, presented inverted)."),
        control_view("locked", "Locked", InspectorSection::Header, WidgetView::Toggle, AppliesTo::Always, Some("set-meta"@), Some("locked"@), ONE_BITS, "Lock the object against selection and editing."),
        control_view("role", "Role", InspectorSection::Header, WidgetView::Badge, AppliesTo::Always, None, None, ONE_BITS, "The object's placement/container role (read-only)."),
        control_view("x", "X", InspectorSection::Placement, WidgetView::Number { unit: "px"@, min: None, max: None, step: ONE_BITS }, AppliesTo::FreePlaced, Some("set-transform"@), Some("translate.x"@), ONE_BITS, "Horizontal position (transform translate x)."),
        control_view("y", "Y", InspectorSection::Placement, WidgetView::Number { unit: "px"@, min: None, max: None, step: ONE_BITS }, AppliesTo::FreePlaced, Some("set-transform"@), Some("translate.y"@), ONE_BITS, "Vertical position (transform translate y)."),
        control_view("width", "Width", InspectorSection::Placement, WidgetView::Number { unit: "px"@, min: Some(ZERO_BITS), max: None, step: ONE_BITS }, AppliesTo::FreePlaced, Some("set-transform"@), Some("scale.x"@), ONE_BITS, "Width (transform scale x)."),
        control_view("height", "Height", InspectorSection::Placement, WidgetView::Number { unit: "px"@, min: Some(ZERO_BITS), max: None, step: ONE_BITS }, AppliesTo::FreePlaced, Some("set-transform"@), Some("scale.y"@), ONE_BITS, "Height (transform scale y)."),
        control_view("rotation", "Rotation", InspectorSection::Placement, WidgetView::Number { unit: "deg"@, min: None, max: None, step: ONE_BITS }, AppliesTo::FreePlaced, Some("set-transform"@), Some("rotation"@), ONE_BITS, "Rotation, read from the transform affine decomposition."),
        control_view("sizing-w", "Width sizing", InspectorSection::Placement, WidgetView::Segment { options: seq!["Hug"@, "Fill"@, "Fixed"@] }, AppliesTo::FlowChild, Some("set-sizing"@), Some("w"@), QUANTUM_BITS, "How the child sizes along the width: hug content, fill the track, or a fixed value."),
        control_view("sizing-h", "Height sizing", InspectorSection::Placement, WidgetView::Segment { options: seq!["Hug"@, "Fill"@, "Fixed"@] }, AppliesTo::FlowChild, Some("set-sizing"@), Some("h"@), QUANTUM_BITS, "How the child sizes along the height: hug content, fill the track, or a fixed value."),
        control_view("rotation-flow", "Rotation", InspectorSection::Placement, WidgetView::Number { unit: "deg"@, min: None, max: None, step: ONE_BITS }, AppliesTo::FlowChild, Some("set-transform"@), Some("rotation"@), ONE_BITS, "Rotation, read from the transform affine decomposition."),
        control_view("layout-mode", "Layout", InspectorSection::Layout, WidgetView::Segment { options: seq!["Free"@, "Flow"@] }, AppliesTo::Container, Some("set-layout"@), Some("mode"@), ONE_BITS, "Free (children keep their own transform) or Flow (the parent arranges children)."),
        control_view("axis", "Axis", InspectorSection::Layout, WidgetView::Segment { options: seq!["Horizontal"@, "Vertical"@] }, AppliesTo::FlowContainer, Some("set-layout"@), Some("axis"@), ONE_BITS, "Main axis the children flow along."),
        control_view("lanes", "Lanes", InspectorSection::Layout, WidgetView::Lanes, AppliesTo::FlowContainer, Some("set-layout"@), Some("lanes"@), ONE_BITS, "Track count: 1 = list, N = grid, Fill = wrap-as-fit."),
        control_view("spacing", "Spacing", InspectorSection::Layout, WidgetView::Number { unit: "px"@, min: Some(ZERO_BITS), max: None, step: ONE_BITS }, AppliesTo::FlowContainer, Some("set-layout"@), Some("spacing"@), QUANTUM_BITS, "Inter-child gap AND uniform container edge inset."),
        control_view("align", "Align", InspectorSection::Layout, WidgetView::Align9, AppliesTo::FlowContainer, Some("set-layout"@), Some("align"@), ONE_BITS, "Main- and cross-axis alignment of the children."),
        control_view("clip", "Clip", InspectorSection::Layout, WidgetView::Toggle, AppliesTo::FlowContainer, Some("set-clip"@), Some("clip"@), ONE_BITS, "Clip children to this container's bounds."),
        control_view("fill", "Fill", InspectorSection::Appearance, WidgetView::Paint, AppliesTo::Always, Some("set-style"@), Some("fill"@), ONE_BITS, "Fill paint."),
        control_view("stroke", "Stroke", InspectorSection::Appearance, WidgetView::Paint, AppliesTo::Always, Some("set-style"@), Some("stroke"@), ONE_BITS, "Stroke paint."),
        control_view("stroke-width", "Stroke width", InspectorSection::Appearance, WidgetView::Number { unit: "px"@, min: Some(ZERO_BITS), max: None, step: ONE_BITS }, AppliesTo::Always, Some("set-style"@), Some("stroke.width"@), QUANTUM_BITS, "Stroke width."),
        control_view("font", "Font", InspectorSection::Text, WidgetView::Segment { options: seq!["Sans"@, "Serif"@, "Mono"@] }, AppliesTo::HasText, Some("set-text"@), Some("font"@), ONE_BITS, "Font family."),
        control_view("font-size", "Size", InspectorSection::Text, WidgetView::Number { unit: "px"@, min: Some(ONE_BITS), max: None, step: ONE_BITS }, AppliesTo::HasText, Some("set-text"@), Some("size"@), QUANTUM_BITS, "Font size."),
        control_view("font-weight", "Weight", InspectorSection::Text, WidgetView::Segment { options: seq!["Regular"@, "Bold"@] }, AppliesTo::HasText, Some("set-text"@), Some("bold"@), ONE_BITS, "Font weight."),
        control_view("text-align", "Text align", InspectorSection::Text, WidgetView::Segment { options: seq!["Start"@, "Center"@, "End"@, "Justify"@] }, AppliesTo::HasText, Some("set-text"@), Some("align"@), ONE_BITS, "Text alignment."),
        control_view("text-color", "Text color", InspectorSection::Text, WidgetView::Paint, AppliesTo::HasText, Some("set-text"@), Some("color"@), ONE_BITS, "Text color."),
        control_view("canonicalize", "Straighten", InspectorSection::Action, WidgetView::Button, AppliesTo::Always, Some("canonicalize"@), None, ONE_BITS, "Extract the dominant orientation into the transform and re-axis-align the geometry."),
    ]
}

/// The characters of an optional string slice.
pub open spec fn opt_chars(o: Option<&str>) -> Option<Seq<char>> {
    match o {
        Some(s) => Some(s@),
        None => None,
    }
}

fn owned(o: Option<&str>) -> (r: Option<String>)
    ensures
        crate::model::opt_str(r) == opt_chars(o),
{
    match o {
        Some(s) => Some(s.to_owned()),
        None => None,
    }
}

fn control(
    id: &str,
    label: &str,
    section: InspectorSection,
    widget: InspectorWidget,
    applies_to: AppliesTo,
    op_kind: Option<&str>,
    field: Option<&str>,
    unit_scale: u64,
    description: &str,
) -> (r: InspectorControl)
    ensures
        r@ == control_view(
            id,
            label,
            section,
            widget@,
            applies_to,
            opt_chars(op_kind),
            opt_chars(field),
            unit_scale,
            description,
        ),
{
    InspectorControl {
        id: id.to_owned(),
        label: label.to_owned(),
        section,
        widget,
        applies_to,
        op_kind: owned(op_kind),
        field: owned(field),
        unit_scale,
        description: description.to_owned(),
    }
}

fn number(unit: &str, min: Option<u64>, max: Option<u64>, step: u64) -> (r: InspectorWidget)
    ensures
        r@ == (WidgetView::Number { unit: unit@, min, max, step }),
{
    InspectorWidget::Number { unit: unit.to_owned(), min, max, step }
}

fn segment2(a: &str, b: &str) -> (r: InspectorWidget)
    ensures
        r@ == (WidgetView::Segment { options: seq![a@, b@] }),
{
    let mut v: Vec<String> = Vec::new();
    v.push(a.to_owned());
    v.push(b.to_owned());
    proof {
        assert(strs(v@) =~= seq![a@, b@]);
    }
    InspectorWidget::Segment { options: v }
}

fn segment3(a: &str, b: &str, c: &str) -> (r: InspectorWidget)
    ensures
        r@ == (WidgetView::Segment { options: seq![a@, b@, c@] }),
{
    let mut v: Vec<String> = Vec::new();
    v.push(a.to_owned());
    v.push(b.to_owned());
    v.push(c.to_owned());
    proof {
        assert(strs(v@) =~= seq![a@, b@, c@]);
    }
    InspectorWidget::Segment { options: v }
}

fn segment4(a: &str, b: &str, c: &str, d: &str) -> (r: InspectorWidget)
    ensures
        r@ == (WidgetView::Segment { options: seq![a@, b@, c@, d@] }),
{
    let mut v: Vec<String> = Vec::new();
    v.push(a.to_owned());
    v.push(b.to_owned());
    v.push(c.to_owned());
    v.push(d.to_owned());
    proof {
        assert(strs(v@) =~= seq![a@, b@, c@, d@]);
    }
    InspectorWidget::Segment { options: v }
}

/// The inspector controls, in panel order (see [`inspector_catalog`]).
#[verifier::rlimit(40)]
pub fn object_inspector_catalog() -> (r: Vec<InspectorControl>)
    ensures
        views(r@) == inspector_catalog(),
{
    let mut r: Vec<InspectorControl> = Vec::new();
    r.push(control("name", "Name", InspectorSection::Header, InspectorWidget::Text, AppliesTo::Always, Some("set-meta"), Some("name"), ONE_BITS, "Panel display name for the object."));
    r.push(control("visible", "Visible", InspectorSection::Header, InspectorWidget::Toggle, AppliesTo::Always, Some("set-meta"), Some("hidden"), ONE_BITS, "Show or hide the object (toggles the stored `hidden` flag, presented inverted)."));
    r.push(control("locked", "Locked", InspectorSection::Header, InspectorWidget::Toggle, AppliesTo::Always, Some("set-meta"), Some("locked"), ONE_BITS, "Lock the object against selection and editing."));
    r.push(control("role", "Role", InspectorSection::Header, InspectorWidget::Badge, AppliesTo::Always, None, None, ONE_BITS, "The object's placement/container role (read-only)."));
    r.push(control("x", "X", InspectorSection::Placement, number("px", None, None, ONE_BITS), AppliesTo::FreePlaced, Some("set-transform"), Some("translate.x"), ONE_BITS, "Horizontal position (transform translate x)."));
    r.push(control("y", "Y", InspectorSection::Placement, number("px", None, None, ONE_BITS), AppliesTo::FreePlaced, Some("set-transform"), Some("translate.y"), ONE_BITS, "Vertical position (transform translate y)."));
    r.push(control("width", "Width", InspectorSection::Placement, number("px", Some(ZERO_BITS), None, ONE_BITS), AppliesTo::FreePlaced, Some("set-transform"), Some("scale.x"), ONE_BITS, "Width (transform scale x)."));
    r.push(control("height", "Height", InspectorSection::Placement, number("px", Some(ZERO_BITS), None, ONE_BITS), AppliesTo::FreePlaced, Some("set-transform"), Some("scale.y"), ONE_BITS, "Height (transform scale y)."));
    r.push(control("rotation", "Rotation", InspectorSection::Placement, number("deg", None, None, ONE_BITS), AppliesTo::FreePlaced, Some("set-transform"), Some("rotation"), ONE_BITS, "Rotation, read from the transform affine decomposition."));
    r.push(control("sizing-w", "Width sizing", InspectorSection::Placement, segment3("Hug", "Fill", "Fixed"), AppliesTo::FlowChild, Some("set-sizing"), Some("w"), QUANTUM_BITS, "How the child sizes along the width: hug content, fill the track, or a fixed value."));
    r.push(control("sizing-h", "Height sizing", InspectorSection::Placement, segment3("Hug", "Fill", "Fixed"), AppliesTo::FlowChild, Some("set-sizing"), Some("h"), QUANTUM_BITS, "How the child sizes along the height: hug content, fill the track, or a fixed value."));
    r.push(control("rotation-flow", "Rotation", InspectorSection::Placement, number("deg", None, None, ONE_BITS), AppliesTo::FlowChild, Some("set-transform"), Some("rotation"), ONE_BITS, "Rotation, read from the transform affine decomposition."));
    r.push(control("layout-mode", "Layout", InspectorSection::Layout, segment2("Free", "Flow"), AppliesTo::Container, Some("set-layout"), Some("mode"), ONE_BITS, "Free (children keep their own transform) or Flow (the parent arranges children)."));
    r.push(control("axis", "Axis", InspectorSection::Layout, segment2("Horizontal", "Vertical"), AppliesTo::FlowContainer, Some("set-layout"), Some("axis"), ONE_BITS, "Main axis the children flow along."));
    r.push(control("lanes", "Lanes", InspectorSection::Layout, InspectorWidget::Lanes, AppliesTo::FlowContainer, Some("set-layout"), Some("lanes"), ONE_BITS, "Track count: 1 = list, N = grid, Fill = wrap-as-fit."));
    r.push(control("spacing", "Spacing", InspectorSection::Layout, number("px", Some(ZERO_BITS), None, ONE_BITS), AppliesTo::FlowContainer, Some("set-layout"), Some("spacing"), QUANTUM_BITS, "Inter-child gap AND uniform container edge inset."));
    r.push(control("align", "Align", InspectorSection::Layout, InspectorWidget::Align9, AppliesTo::FlowContainer, Some("set-layout"), Some("align"), ONE_BITS, "Main- and cross-axis alignment of the children."));
    r.push(control("clip", "Clip", InspectorSection::Layout, InspectorWidget::Toggle, AppliesTo::FlowContainer, Some("set-clip"), Some("clip"), ONE_BITS, "Clip children to this container's bounds."));
    r.push(control("fill", "Fill", InspectorSection::Appearance, InspectorWidget::Paint, AppliesTo::Always, Some("set-style"), Some("fill"), ONE_BITS, "Fill paint."));
    r.push(control("stroke", "Stroke", InspectorSection::Appearance, InspectorWidget::Paint, AppliesTo::Always, Some("set-style"), Some("stroke"), ONE_BITS, "Stroke paint."));
    r.push(control("stroke-width", "Stroke width", InspectorSection::Appearance, number("px", Some(ZERO_BITS), None, ONE_BITS), AppliesTo::Always, Some("set-style"), Some("stroke.width"), QUANTUM_BITS, "Stroke width."));
    r.push(control("font", "Font", InspectorSection::Text, segment3("Sans", "Serif", "Mono"), AppliesTo::HasText, Some("set-text"), Some("font"), ONE_BITS, "Font family."));
    r.push(control("font-size", "Size", InspectorSection::Text, number("px", Some(ONE_BITS), None, ONE_BITS), AppliesTo::HasText, Some("set-text"), Some("size"), QUANTUM_BITS, "Font size."));
    r.push(control("font-weight", "Weight", InspectorSection::Text, segment2("Regular", "Bold"), AppliesTo::HasText, Some("set-text"), Some("bold"), ONE_BITS, "Font weight."));
    r.push(control("text-align", "Text align", InspectorSection::Text, segment4("Start", "Center", "End", "Justify"), AppliesTo::HasText, Some("set-text"), Some("align"), ONE_BITS, "Text alignment."));
    r.push(control("text-color", "Text color", InspectorSection::Text, InspectorWidget::Paint, AppliesTo::HasText, Some("set-text"), Some("color"), ONE_BITS, "Text color."));
    r.push(control("canonicalize", "Straighten", InspectorSection::Action, InspectorWidget::Button, AppliesTo::Always, Some("canonicalize"), None, ONE_BITS, "Extract the dominant orientation into the transform and re-axis-align the geometry."));
    proof {
        assert(views(r@) =~= inspector_catalog());
    }
    r
}

/// Where an object sits position-wise.
#[derive(Clone, Copy, Debug, PartialEq, Eq, Structural)]
pub enum Placement {
    /// It owns its transform.
    Free,
    /// Its parent's layout owns its position.
    FlowChild,
}

/// The role of one object: the basis for filtering the catalog.
#[derive(Clone, Copy, Debug, PartialEq, Eq, Structural)]
pub struct InspectorRole {
    pub placement: Placement,
    pub container: bool,
    pub flow_container: bool,
    pub has_text: bool,
}

/// Whether a control offered for `applies_to` is offered for role `r`.
pub open spec fn offered(r: InspectorRole, applies_to: AppliesTo) -> bool {
    match applies_to {
        AppliesTo::Always => true,
        AppliesTo::FreePlaced => r.placement == Placement::Free,
        AppliesTo::FlowChild => r.placement == Placement::FlowChild,
        AppliesTo::Container => r.container,
        AppliesTo::FlowContainer => r.flow_container,
        AppliesTo::HasText => r.has_text,
    }
}

/// The label of a role's badge.
pub open spec fn role_label(r: InspectorRole) -> Seq<char> {
    if r.flow_container {
        "Flow container"@
    } else if r.container {
        "Free container"@
    } else if r.placement == Placement::FlowChild {
        "Flow child"@
    } else {
        "Free placed"@
    }
}

impl InspectorRole {
    /// Whether a control's `applies_to` is offered for this role.
    pub fn matches(&self, applies_to: AppliesTo) -> (b: bool)
        ensures
            b == offered(*self, applies_to),
    {
        match applies_to {
            AppliesTo::Always => true,
            AppliesTo::FreePlaced => self.placement == Placement::Free,
            AppliesTo::FlowChild => self.placement == Placement::FlowChild,
            AppliesTo::Container => self.container,
            AppliesTo::FlowContainer => self.flow_container,
            AppliesTo::HasText => self.has_text,
        }
    }

    /// The human role label shown in the read-only role badge.
    pub fn label(&self) -> (s: &'static str)
        ensures
            s@ == role_label(*self),
    {
        if self.flow_container {
            "Flow container"
        } else if self.container {
            "Free container"
        } else if self.placement == Placement::FlowChild {
            "Flow child"
        } else {
            "Free placed"
        }
    }
}

/// The role of `obj` in `s`: a flow child when its parent is in the scene and
/// has a layout; a container when some object names it as parent; a flow
/// container when it is a container with a layout; text-bearing when it has
/// text.
pub open spec fn role_of(s: ObjectSceneView, obj: ObjectView) -> InspectorRole {
    let in_flow_parent = match obj.parent {
        Some(p) => match find_object(s.objects, p) {
            Some(parent) => parent.layout is Some,
            None => false,
        },
        None => false,
    };
    let container = has_child(s, obj.id);
    InspectorRole {
        placement: if in_flow_parent { Placement::FlowChild } else { Placement::Free },
        container,
        flow_container: container && obj.layout is Some,
        has_text: obj.text is Some,
    }
}

/// The role of `obj` within `scene` (see [`role_of`]).
pub fn resolve_role(scene: &ObjectScene, obj: &Object) -> (r: InspectorRole)
    ensures
        r == role_of(scene@, obj@),
{
    let in_flow_parent = match &obj.parent {
        Some(p) => match scene.get(p.as_str()) {
            Some(parent) => parent.layout.is_some(),
            None => false,
        },
        None => false,
    };
    let container = has_children(scene, obj.id.as_str());
    InspectorRole {
        placement: if in_flow_parent {
            Placement::FlowChild
        } else {
            Placement::Free
        },
        container,
        flow_container: container && obj.layout.is_some(),
        has_text: obj.text.is_some(),
    }
}

} // verus!
