//! Primitive kinds and recolouring: the toolbar's primitive vocabulary, the
//! colour-to-paint mapping, and the `set-style` op a recolour authors.

use vstd::prelude::*;

use crate::object::model::{Fill, FillView, GeometryView, LineCap, LineJoin, Object, Paint, PaintView, Stroke, StrokeView, SubPathView, F64_ONE_BITS};
use crate::object::op::{op_view, FieldEdit, FieldEditView, ObjectOp, ObjectOpView};
use crate::object::path::{parse_path, parse_path_text};
use crate::text::str_eq;

verus! {

/// The primitive kinds the toolbar can author.
#[derive(Clone, Copy, Debug, PartialEq, Eq, Structural)]
pub enum PrimitiveKind {
    Rectangle,
    Ellipse,
    Line,
    Text,
    Frame,
}

pub open spec fn kind_named(s: Seq<char>) -> Option<PrimitiveKind> {
    if s == "rectangle"@ {
        Some(PrimitiveKind::Rectangle)
    } else if s == "ellipse"@ {
        Some(PrimitiveKind::Ellipse)
    } else if s == "line"@ {
        Some(PrimitiveKind::Line)
    } else if s == "text"@ {
        Some(PrimitiveKind::Text)
    } else if s == "frame"@ {
        Some(PrimitiveKind::Frame)
    } else {
        None
    }
}

impl PrimitiveKind {
    /// The kind a lowercase kind name names, or `None` if unknown.
    pub fn from_str(s: &str) -> (r: Option<PrimitiveKind>)
        ensures
            r == kind_named(s@),
    {
        if str_eq(s, "rectangle") {
            Some(PrimitiveKind::Rectangle)
        } else if str_eq(s, "ellipse") {
            Some(PrimitiveKind::Ellipse)
        } else if str_eq(s, "line") {
            Some(PrimitiveKind::Line)
        } else if str_eq(s, "text") {
            Some(PrimitiveKind::Text)
        } else if str_eq(s, "frame") {
            Some(PrimitiveKind::Frame)
        } else {
            None
        }
    }
}

/// The colour a pick of "theme default" carries: not a CSS colour; it maps to
/// the `text` theme token so the object follows the theme.
pub const THEME_DEFAULT_COLOR: &'static str = "token:text";

pub open spec fn paint_of(color: Seq<char>) -> PaintView {
    if color == "token:text"@ {
        PaintView::Token { name: "text"@ }
    } else {
        PaintView::Solid { color }
    }
}

/// The paint for a toolbar colour: the theme-default sentinel becomes the
/// `text` theme token, every other value a solid colour.
pub fn paint_for_color(color: &str) -> (r: Paint)
    ensures
        r@ == paint_of(color@),
{
    if str_eq(color, THEME_DEFAULT_COLOR) {
        Paint::Token { name: crate::object::catalog::theme::Token::Text.name().to_owned() }
    } else {
        Paint::Solid { color: color.to_owned() }
    }
}

/// The subpaths a geometry stands for: those it holds, else its path text
/// read (none when the text is malformed).
pub open spec fn shape_of(g: GeometryView) -> Seq<SubPathView> {
    if g.subpaths.len() > 0 {
        g.subpaths
    } else {
        match parse_path(g.path_string) {
            Some(sps) => sps,
            None => seq![],
        }
    }
}

/// An open-class geometry: exactly one subpath, and it is open.
pub open spec fn open_class(g: GeometryView) -> bool {
    shape_of(g).len() == 1 && !shape_of(g)[0].closed
}

/// Whether a geometry is open-class (one open subpath).
pub fn is_open_class(geometry: &crate::object::model::Geometry) -> (r: bool)
    ensures
        r == open_class(geometry@),
{
    if geometry.subpaths.len() > 0 {
        return geometry.subpaths.len() == 1 && !geometry.subpaths[0].closed;
    }
    match parse_path_text(geometry.path_string.as_str()) {
        Some(sps) => sps.len() == 1 && !sps[0].closed,
        None => false,
    }
}

/// The stroke a line primitive gets by default: solid `#5b6472`, 2 px wide
/// (16 quantized units), fully opaque, butt caps, miter joins.
pub open spec fn line_default_stroke() -> StrokeView {
    StrokeView {
        paint: PaintView::Solid { color: "#5b6472"@ },
        width: 16,
        opacity: F64_ONE_BITS,
        dash: seq![],
        cap: LineCap::Butt,
        join: LineJoin::Miter,
    }
}

fn line_stroke() -> (r: Stroke)
    ensures
        r@ == line_default_stroke(),
{
    Stroke {
        paint: Paint::Solid { color: "#5b6472".to_owned() },
        width: 16,
        opacity: F64_ONE_BITS,
        dash: Vec::new(),
        cap: LineCap::Butt,
        join: LineJoin::Miter,
    }
}

/// The `set-style` op recolouring `o` to `color`: an open-class object
/// recolours (or gains) its stroke only; otherwise the fill and stroke it
/// carries are recoloured, and an object with neither gains an opaque fill.
pub open spec fn recolor(o: crate::object::model::ObjectView, color: Seq<char>) -> ObjectOpView {
    let paint = paint_of(color);
    if open_class(o.geometry) {
        let base = match o.stroke {
            Some(s) => s,
            None => line_default_stroke(),
        };
        ObjectOpView::SetStyle {
            id: o.id,
            fill: None,
            stroke: Some(FieldEditView::SetTo { value: StrokeView { paint, ..base } }),
        }
    } else if o.fill is None && o.stroke is None {
        ObjectOpView::SetStyle {
            id: o.id,
            fill: Some(FieldEditView::SetTo { value: FillView { paint, opacity: F64_ONE_BITS } }),
            stroke: None,
        }
    } else {
        ObjectOpView::SetStyle {
            id: o.id,
            fill: match o.fill {
                Some(f) => Some(FieldEditView::SetTo { value: FillView { paint, ..f } }),
                None => None,
            },
            stroke: match o.stroke {
                Some(s) => Some(FieldEditView::SetTo { value: StrokeView { paint, ..s } }),
                None => None,
            },
        }
    }
}

/// The `set-style` op recolouring `object` to `color`, recolouring only the
/// style fields it already carries (see [`recolor`]). The inverse comes from
/// applying the op.
pub fn build_set_style_op(object: &Object, color: &str) -> (r: ObjectOp)
    ensures
        op_view(r) == recolor(object@, color@),
{
    if is_open_class(&object.geometry) {
        let mut stroke = match &object.stroke {
            Some(s) => s.copy_of(),
            None => line_stroke(),
        };
        stroke.paint = paint_for_color(color);
        return ObjectOp::SetStyle { id: object.id.clone(), fill: None, stroke: Some(FieldEdit::SetTo { value: stroke }) };
    }
    if object.fill.is_none() && object.stroke.is_none() {
        return ObjectOp::SetStyle {
            id: object.id.clone(),
            fill: Some(FieldEdit::SetTo { value: Fill { paint: paint_for_color(color), opacity: F64_ONE_BITS } }),
            stroke: None,
        };
    }
    let fill_edit = match &object.fill {
        Some(f) => {
            let mut next = f.copy_of();
            next.paint = paint_for_color(color);
            Some(FieldEdit::SetTo { value: next })
        },
        None => None,
    };
    let stroke_edit = match &object.stroke {
        Some(s) => {
            let mut next = s.copy_of();
            next.paint = paint_for_color(color);
            Some(FieldEdit::SetTo { value: next })
        },
        None => None,
    };
    ObjectOp::SetStyle { id: object.id.clone(), fill: fill_edit, stroke: stroke_edit }
}

} // verus!
