//! Templates: recipes of inline-styled objects. The picker lists the
//! catalog; picking a template builds its objects with [`build_template`]
//! and lowers them to insert ops with [`template_to_ops`].
//!
//! A recipe takes its ids and order keys, in the order it creates objects,
//! from lists the caller allocates, so the same lists give the same objects.
//! Geometry is object-local quantized integers authored from (0,0); the
//! world placement is each object's transform, the anchor plus a fixed
//! offset, whose `f64` sum the caller's `plus` computes.

use vstd::prelude::*;

use crate::apply::{add_bits, adds, sum_by};
use crate::graph::views;
use crate::object::model::{
    Anchor, AnchorView, CommentView, Fill, FillRule, FillView, Geometry, GeometryView, LineCap, LineJoin, LocalPoint,
    Object, ObjectView, Paint, PaintView, PathNode, Stroke, StrokeView, SubPath, SubPathView, Text, TextAlign, TextRun,
    TextRunView, TextVAlign, TextView, Transform3x3, F64_ONE_BITS, F64_ZERO_BITS,
};
use crate::object::op::{op_view, op_views, ObjectOp, ObjectOpView};
use crate::object::path::path_text;
use crate::text::{str_eq, strs};

verus! {

/// Coarse grouping for the template picker.
#[derive(Clone, Copy, Debug, PartialEq, Eq, Structural)]
pub enum TemplateCategory {
    Planning,
    Knowledge,
    Engineering,
    Presentation,
    General,
}

/// One catalog entry: enough for the picker to list and trigger a template.
#[derive(Clone, Debug, PartialEq, Eq)]
pub struct ObjectTemplateMeta {
    pub id: &'static str,
    pub label: &'static str,
    pub category: TemplateCategory,
    pub description: &'static str,
}

pub struct TemplateMetaView {
    pub id: Seq<char>,
    pub label: Seq<char>,
    pub category: TemplateCategory,
    pub description: Seq<char>,
}

impl View for ObjectTemplateMeta {
    type V = TemplateMetaView;

    open spec fn view(&self) -> TemplateMetaView {
        TemplateMetaView { id: self.id@, label: self.label@, category: self.category, description: self.description@ }
    }
}

/// A catalog entry.
pub open spec fn meta(id: &str, label: &str, category: TemplateCategory, description: &str) -> TemplateMetaView {
    TemplateMetaView { id: id@, label: label@, category, description: description@ }
}

/// The catalog, in picker order.
pub open spec fn template_catalog() -> Seq<TemplateMetaView> {
    seq![
        meta("todo_board", "To-do Board", TemplateCategory::Planning, "Three grouped columns — To do, In progress, Done — each holding starter task cards."),
        meta("decision_map", "Decision Map", TemplateCategory::Engineering, "A decision point branching to two options and their outcomes, wired with anchored connectors."),
        meta("presentation", "Presentation", TemplateCategory::Presentation, "A deck frame grouping a title slide and three content slides."),
        meta("idea_board", "Idea Board", TemplateCategory::Knowledge, "A scatter of idea cards around a central prompt."),
        meta("wiki_note", "Wiki Note", TemplateCategory::Knowledge, "A title card over a body note — a lightweight document page."),
        meta("adr", "ADR", TemplateCategory::Engineering, "Architecture decision record — context, decision, consequences."),
        meta("investigation_map", "Investigation Map", TemplateCategory::Engineering, "Trace evidence and findings from a starting question."),
        meta("dependency_diagram", "Dependency Diagram", TemplateCategory::Engineering, "Components and the dependencies between them."),
        meta("server_architecture", "Server Architecture", TemplateCategory::Engineering, "Components as boxes, zones as frames, calls as labeled edges."),
    ]
}

fn entry(id: &'static str, label: &'static str, category: TemplateCategory, description: &'static str) -> (r:
    ObjectTemplateMeta)
    ensures
        r@ == meta(id, label, category, description),
{
    ObjectTemplateMeta { id, label, category, description }
}

/// The template catalog for the picker, in display order (see
/// [`template_catalog`]).
pub fn object_template_catalog() -> (r: Vec<ObjectTemplateMeta>)
    ensures
        views(r@) == template_catalog(),
{
    let mut r: Vec<ObjectTemplateMeta> = Vec::new();
    r.push(entry("todo_board", "To-do Board", TemplateCategory::Planning, "Three grouped columns — To do, In progress, Done — each holding starter task cards."));
    r.push(entry("decision_map", "Decision Map", TemplateCategory::Engineering, "A decision point branching to two options and their outcomes, wired with anchored connectors."));
    r.push(entry("presentation", "Presentation", TemplateCategory::Presentation, "A deck frame grouping a title slide and three content slides."));
    r.push(entry("idea_board", "Idea Board", TemplateCategory::Knowledge, "A scatter of idea cards around a central prompt."));
    r.push(entry("wiki_note", "Wiki Note", TemplateCategory::Knowledge, "A title card over a body note — a lightweight document page."));
    r.push(entry("adr", "ADR", TemplateCategory::Engineering, "Architecture decision record — context, decision, consequences."));
    r.push(entry("investigation_map", "Investigation Map", TemplateCategory::Engineering, "Trace evidence and findings from a starting question."));
    r.push(entry("dependency_diagram", "Dependency Diagram", TemplateCategory::Engineering, "Components and the dependencies between them."));
    r.push(entry("server_architecture", "Server Architecture", TemplateCategory::Engineering, "Components as boxes, zones as frames, calls as labeled edges."));
    proof {
        assert(views(r@) =~= template_catalog());
    }
    r
}

/// The semantic preset keys.
pub open spec fn preset_keys() -> Seq<Seq<char>> {
    seq![
        "default"@,
        "decision"@,
        "risk"@,
        "proposition"@,
        "decision_point"@,
        "option"@,
        "evidence"@,
        "tradeoff"@,
        "blocker"@,
        "subdecision"@,
        "task"@,
        "artifact"@,
    ]
}

/// The twelve semantic preset keys (see [`preset_keys`]).
pub fn semantic_presets() -> (r: Vec<&'static str>)
    ensures
        r@.map_values(|s: &str| s@) == preset_keys(),
{
    let mut r: Vec<&'static str> = Vec::new();
    r.push("default");
    r.push("decision");
    r.push("risk");
    r.push("proposition");
    r.push("decision_point");
    r.push("option");
    r.push("evidence");
    r.push("tradeoff");
    r.push("blocker");
    r.push("subdecision");
    r.push("task");
    r.push("artifact");
    proof {
        assert(r@.map_values(|s: &str| s@) =~= preset_keys());
    }
    r
}

/// The (surface, accent, text) colours of a preset; an unknown preset takes
/// the default's.
pub open spec fn preset_colors(p: Seq<char>) -> (Seq<char>, Seq<char>, Seq<char>) {
    if p == "decision"@ || p == "decision_point"@ {
        ("#f7fbff"@, "#2f7ee6"@, "#102033"@)
    } else if p == "risk"@ {
        ("#fff8f1"@, "#c67914"@, "#2a1b0b"@)
    } else if p == "proposition"@ {
        ("#f4fbf9"@, "#19917f"@, "#10231f"@)
    } else if p == "option"@ {
        ("#f4fbf6"@, "#26965e"@, "#10251a"@)
    } else if p == "evidence"@ {
        ("#f4fbff"@, "#228bb8"@, "#102432"@)
    } else if p == "tradeoff"@ {
        ("#fff8f1"@, "#c17518"@, "#2a1b0b"@)
    } else if p == "blocker"@ {
        ("#fff7f8"@, "#d14c58"@, "#2c1014"@)
    } else if p == "subdecision"@ {
        ("#f8f7ff"@, "#7a68ce"@, "#1d1833"@)
    } else if p == "task"@ {
        ("#f7faff"@, "#5371b3"@, "#111c33"@)
    } else if p == "artifact"@ {
        ("#f7fafb"@, "#617a85"@, "#142027"@)
    } else {
        ("#ffffff"@, "#7b8794"@, "#172026"@)
    }
}

fn colors_of(p: &str) -> (r: (&'static str, &'static str, &'static str))
    ensures
        (r.0@, r.1@, r.2@) == preset_colors(p@),
{
    if str_eq(p, "decision") || str_eq(p, "decision_point") {
        ("#f7fbff", "#2f7ee6", "#102033")
    } else if str_eq(p, "risk") {
        ("#fff8f1", "#c67914", "#2a1b0b")
    } else if str_eq(p, "proposition") {
        ("#f4fbf9", "#19917f", "#10231f")
    } else if str_eq(p, "option") {
        ("#f4fbf6", "#26965e", "#10251a")
    } else if str_eq(p, "evidence") {
        ("#f4fbff", "#228bb8", "#102432")
    } else if str_eq(p, "tradeoff") {
        ("#fff8f1", "#c17518", "#2a1b0b")
    } else if str_eq(p, "blocker") {
        ("#fff7f8", "#d14c58", "#2c1014")
    } else if str_eq(p, "subdecision") {
        ("#f8f7ff", "#7a68ce", "#1d1833")
    } else if str_eq(p, "task") {
        ("#f7faff", "#5371b3", "#111c33")
    } else if str_eq(p, "artifact") {
        ("#f7fafb", "#617a85", "#142027")
    } else {
        ("#ffffff", "#7b8794", "#172026")
    }
}

/// Inline style for a semantic preset: a solid surface fill at full opacity, a
/// solid 1px accent stroke (butt caps, round joins, no dash) at full opacity,
/// and the text colour (see [`preset_colors`]).
pub fn semantic_preset_style(preset: &str) -> (r: (Option<Fill>, Option<Stroke>, Option<String>))
    ensures
        ({
            let (fill, stroke, text) = preset_colors(preset@);
            &&& r.0 is Some && r.0->0@ == (FillView { paint: PaintView::Solid { color: fill }, opacity: F64_ONE_BITS })
            &&& r.1 is Some && r.1->0@ == (StrokeView {
                paint: PaintView::Solid { color: stroke },
                width: 8,
                opacity: F64_ONE_BITS,
                dash: seq![],
                cap: LineCap::Butt,
                join: LineJoin::Round,
            })
            &&& r.2 is Some && r.2->0@ == text
        }),
{
    let (fill_hex, stroke_hex, text_hex) = colors_of(preset);
    let fill = Fill { paint: Paint::Solid { color: fill_hex.to_owned() }, opacity: F64_ONE_BITS };
    let stroke = Stroke {
        paint: Paint::Solid { color: stroke_hex.to_owned() },
        width: 8,
        opacity: F64_ONE_BITS,
        dash: Vec::new(),
        cap: LineCap::Butt,
        join: LineJoin::Round,
    };
    proof {
        assert(stroke.dash@ =~= Seq::<i32>::empty());
    }
    (Some(fill), Some(stroke), Some(text_hex.to_owned()))
}

/// One insert op per object, in recipe order.
pub fn template_to_ops(objs: Vec<Object>) -> (r: Vec<ObjectOp>)
    ensures
        op_views(r@) == views(objs@).map_values(|o: ObjectView| ObjectOpView::InsertObject { object: o }),
{
    let ghost target = views(objs@).map_values(|o: ObjectView| ObjectOpView::InsertObject { object: o });
    let mut r: Vec<ObjectOp> = Vec::new();
    let mut i: usize = 0;
    while i < objs.len()
        invariant
            i <= objs@.len(),
            target == views(objs@).map_values(|o: ObjectView| ObjectOpView::InsertObject { object: o }),
            op_views(r@) == target.subrange(0, i as int),
        decreases objs@.len() - i,
    {
        let op = ObjectOp::InsertObject { object: objs[i].copy_of() };
        let ghost before = r@;
        r.push(op);
        proof {
            assert(r@.drop_last() =~= before);
            assert(views(objs@)[i as int] == objs@[i as int]@);
            assert(op_view(op) == target[i as int]);
            assert(target.subrange(0, i + 1) =~= target.subrange(0, i as int).push(target[i as int]));
        }
        i = i + 1;
    }
    proof {
        assert(target.subrange(0, objs@.len() as int) =~= target);
    }
    r
}

// ---------------------------------------------------------------------------
// The pieces recipes are made of
// ---------------------------------------------------------------------------

/// The translation by `(tx, ty)` (`f64` bit patterns).
pub open spec fn translate_bits(tx: u64, ty: u64) -> Transform3x3 {
    Transform3x3 { m: [[F64_ONE_BITS, F64_ZERO_BITS, tx], [F64_ZERO_BITS, F64_ONE_BITS, ty], [F64_ZERO_BITS, F64_ZERO_BITS, F64_ONE_BITS]] }
}

/// A plain corner node.
pub open spec fn corner(x: i32, y: i32) -> PathNode {
    PathNode { x, y, in_handle: None, out_handle: None, width: None }
}

/// Geometry holding `sps` and the path text they write.
pub open spec fn geometry_of(sps: Seq<SubPathView>, rule: FillRule) -> GeometryView {
    GeometryView { path_string: path_text(sps), fill_rule: rule, subpaths: sps }
}

/// A closed `w_px` by `h_px` rectangle from the local origin, in quantized
/// units (8 per px), even-odd.
pub open spec fn rect_geometry_view(w_px: i32, h_px: i32) -> GeometryView {
    geometry_of(
        seq![SubPathView { closed: true, nodes: seq![corner(0, 0), corner((w_px * 8) as i32, 0), corner((w_px * 8) as i32, (h_px * 8) as i32), corner(0, (h_px * 8) as i32)] }],
        FillRule::EvenOdd,
    )
}

/// The short open body of a connector (40 px along x), non-zero.
pub open spec fn segment_geometry_view() -> GeometryView {
    geometry_of(seq![SubPathView { closed: false, nodes: seq![corner(0, 0), corner(320, 0)] }], FillRule::NonZero)
}

/// A bare object: identity transform, nothing else set, at the root.
pub open spec fn bare(id: Seq<char>, order: Seq<char>, g: GeometryView) -> ObjectView {
    ObjectView {
        id,
        order,
        parent: None,
        geometry: g,
        transform: Transform3x3::identity_value(),
        fill: None,
        stroke: None,
        text: None,
        anchors: seq![],
        layout: None,
        clip: None,
        comments: seq![],
        tags: seq![],
    }
}

/// One run of text.
pub open spec fn run(text: Seq<char>, color: Seq<char>, size: i32, bold: bool) -> TextRunView {
    TextRunView { text, color: Some(color), size: Some(size), bold, italic: false, font: None }
}

/// A centred card label in `color`, 13 px.
pub open spec fn label_view(text: Seq<char>, color: Seq<char>) -> TextView {
    TextView { runs: seq![run(text, color, 104, false)], align: TextAlign::Center, valign: TextVAlign::Middle }
}

/// A top-left heading in the theme text colour.
pub open spec fn heading_view(text: Seq<char>, size_px: i32, bold: bool) -> TextView {
    TextView { runs: seq![run(text, "text"@, (size_px * 8) as i32, bold)], align: TextAlign::Start, valign: TextVAlign::Top }
}

/// A 1 px stroke of `paint` with butt caps and round joins.
pub open spec fn thin_stroke(paint: PaintView) -> StrokeView {
    StrokeView { paint, width: 8, opacity: F64_ONE_BITS, dash: seq![], cap: LineCap::Butt, join: LineJoin::Round }
}

/// A `w` by `h` px card at `(tx, ty)` in the preset's colours, labelled
/// `text`.
pub open spec fn card_view(
    preset: Seq<char>,
    text: Seq<char>,
    w: i32,
    h: i32,
    tx: u64,
    ty: u64,
    id: Seq<char>,
    order: Seq<char>,
) -> ObjectView {
    let (fill, stroke, color) = preset_colors(preset);
    ObjectView {
        transform: translate_bits(tx, ty),
        fill: Some(FillView { paint: PaintView::Solid { color: fill }, opacity: F64_ONE_BITS }),
        stroke: Some(thin_stroke(PaintView::Solid { color: stroke })),
        text: Some(label_view(text, color)),
        ..bare(id, order, rect_geometry_view(w, h))
    }
}

/// A token-styled `w` by `h` px frame at `(tx, ty)` titled at the top left.
pub open spec fn framed_view(
    fill_token: Seq<char>,
    stroke_token: Seq<char>,
    title: Seq<char>,
    size_px: i32,
    bold: bool,
    parent: Option<Seq<char>>,
    w: i32,
    h: i32,
    tx: u64,
    ty: u64,
    id: Seq<char>,
    order: Seq<char>,
) -> ObjectView {
    ObjectView {
        parent,
        transform: translate_bits(tx, ty),
        fill: Some(FillView { paint: PaintView::Token { name: fill_token }, opacity: F64_ONE_BITS }),
        stroke: Some(thin_stroke(PaintView::Token { name: stroke_token })),
        text: Some(heading_view(title, size_px, bold)),
        ..bare(id, order, rect_geometry_view(w, h))
    }
}

/// A connector whose ends anchor to the centres `c` of `from` (node 0) and
/// `to` (node 1).
pub open spec fn connector_view(from: Seq<char>, to: Seq<char>, c: LocalPoint, id: Seq<char>, order: Seq<char>) -> ObjectView {
    ObjectView {
        stroke: Some(
            StrokeView {
                paint: PaintView::Solid { color: "#7b8794"@ },
                width: 16,
                opacity: F64_ONE_BITS,
                dash: seq![],
                cap: LineCap::Round,
                join: LineJoin::Round,
            },
        ),
        anchors: seq![AnchorView { node_index: 0, target: from, at: c }, AnchorView { node_index: 1, target: to, at: c }],
        ..bare(id, order, segment_geometry_view())
    }
}

fn translate_to(tx: u64, ty: u64) -> (r: Transform3x3)
    ensures
        r == translate_bits(tx, ty),
{
    Transform3x3 { m: [[F64_ONE_BITS, F64_ZERO_BITS, tx], [F64_ZERO_BITS, F64_ONE_BITS, ty], [F64_ZERO_BITS, F64_ZERO_BITS, F64_ONE_BITS]] }
}

fn geometry_from(sp: SubPath, rule: FillRule) -> (r: Geometry)
    ensures
        r@ == geometry_of(seq![sp@], rule),
{
    let v = vec![sp];
    let ghost sv = v@;
    let g = Geometry::from_subpaths(v, rule);
    proof {
        assert(crate::object::model::subpath_views(sv) =~= seq![sv[0]@]);
    }
    g
}

fn rect_geometry(w_px: i32, h_px: i32) -> (r: Geometry)
    requires
        0 <= w_px <= 10000,
        0 <= h_px <= 10000,
    ensures
        r@ == rect_geometry_view(w_px, h_px),
{
    let (w, h) = (w_px * 8, h_px * 8);
    let nodes = vec![PathNode::corner(0, 0), PathNode::corner(w, 0), PathNode::corner(w, h), PathNode::corner(0, h)];
    let sp = SubPath { closed: true, nodes };
    assert(sp@.nodes =~= seq![corner(0, 0), corner((w_px * 8) as i32, 0), corner((w_px * 8) as i32, (h_px * 8) as i32), corner(0, (h_px * 8) as i32)]);
    geometry_from(sp, FillRule::EvenOdd)
}

fn one_run(text: &str, color: &str, size: i32, bold: bool) -> (r: Vec<TextRun>)
    ensures
        crate::object::model::run_views(r@) == seq![run(text@, color@, size, bold)],
{
    let v = vec![TextRun { text: text.to_owned(), color: Some(color.to_owned()), size: Some(size), bold, italic: false, font: None }];
    proof {
        assert(crate::object::model::run_views(v@) =~= seq![run(text@, color@, size, bold)]);
    }
    v
}

fn no_dash() -> (r: Vec<i32>)
    ensures
        r@ == Seq::<i32>::empty(),
{
    Vec::new()
}

/// A card (see [`card_view`]).
fn card(preset: &str, text: &str, w: i32, h: i32, tx: u64, ty: u64, id: &str, order: &str) -> (r: Object)
    requires
        0 <= w <= 10000,
        0 <= h <= 10000,
    ensures
        r@ == card_view(preset@, text@, w, h, tx, ty, id@, order@),
{
    let (fill, stroke, color) = semantic_preset_style(preset);
    let color = match color {
        Some(c) => c,
        None => String::new(),
    };
    let mut o = Object::new(id, order, rect_geometry(w, h));
    o.transform = translate_to(tx, ty);
    o.fill = fill;
    o.stroke = stroke;
    o.text = Some(Text { runs: one_run(text, color.as_str(), 104, false), align: TextAlign::Center, valign: TextVAlign::Middle });
    proof {
        assert(o@.anchors =~= Seq::<AnchorView>::empty());
        assert(o@.comments =~= Seq::<CommentView>::empty());
        assert(o@.tags =~= Seq::<Seq<char>>::empty());
        assert(o@ =~= card_view(preset@, text@, w, h, tx, ty, id@, order@));
    }
    o
}

/// A token-styled frame (see [`framed_view`]).
fn framed(
    fill_token: &str,
    stroke_token: &str,
    title: &str,
    size_px: i32,
    bold: bool,
    parent: Option<&str>,
    w: i32,
    h: i32,
    tx: u64,
    ty: u64,
    id: &str,
    order: &str,
) -> (r: Object)
    requires
        0 <= w <= 10000,
        0 <= h <= 10000,
        0 <= size_px <= 1000,
    ensures
        r@ == framed_view(
            fill_token@,
            stroke_token@,
            title@,
            size_px,
            bold,
            match parent {
                Some(p) => Some(p@),
                None => None,
            },
            w,
            h,
            tx,
            ty,
            id@,
            order@,
        ),
{
    let mut o = Object::new(id, order, rect_geometry(w, h));
    o.transform = translate_to(tx, ty);
    o.fill = Some(Fill { paint: Paint::Token { name: fill_token.to_owned() }, opacity: F64_ONE_BITS });
    o.stroke = Some(Stroke {
        paint: Paint::Token { name: stroke_token.to_owned() },
        width: 8,
        opacity: F64_ONE_BITS,
        dash: no_dash(),
        cap: LineCap::Butt,
        join: LineJoin::Round,
    });
    o.parent = match parent {
        Some(p) => Some(p.to_owned()),
        None => None,
    };
    o.text = Some(Text { runs: one_run(title, "text", size_px * 8, bold), align: TextAlign::Start, valign: TextVAlign::Top });
    proof {
        reveal_strlit("text");
        assert(o@.anchors =~= Seq::<AnchorView>::empty());
        assert(o@.comments =~= Seq::<CommentView>::empty());
        assert(o@.tags =~= Seq::<Seq<char>>::empty());
    }
    o
}

/// A connector (see [`connector_view`]).
fn connector(from: &str, to: &str, c: LocalPoint, id: &str, order: &str) -> (r: Object)
    ensures
        r@ == connector_view(from@, to@, c, id@, order@),
{
    let nodes = vec![PathNode::corner(0, 0), PathNode::corner(320, 0)];
    let sp = SubPath { closed: false, nodes };
    assert(sp@.nodes =~= seq![corner(0, 0), corner(320, 0)]);
    let mut o = Object::new(id, order, geometry_from(sp, FillRule::NonZero));
    o.stroke = Some(Stroke {
        paint: Paint::Solid { color: "#7b8794".to_owned() },
        width: 16,
        opacity: F64_ONE_BITS,
        dash: no_dash(),
        cap: LineCap::Round,
        join: LineJoin::Round,
    });
    o.anchors = vec![Anchor { node_index: 0, target: from.to_owned(), at: c }, Anchor { node_index: 1, target: to.to_owned(), at: c }];
    proof {
        assert(o@.anchors =~= seq![AnchorView { node_index: 0, target: from@, at: c }, AnchorView { node_index: 1, target: to@, at: c }]);
        assert(o@.comments =~= Seq::<CommentView>::empty());
        assert(o@.tags =~= Seq::<Seq<char>>::empty());
    }
    o
}

// ---------------------------------------------------------------------------
// The recipes
// ---------------------------------------------------------------------------

/// `f64` bit patterns of the whole-pixel offsets the recipes place objects at.
pub const PX_0: u64 = 0x0;
pub const PX_20: u64 = 0x4034_0000_0000_0000;
pub const PX_24: u64 = 0x4038_0000_0000_0000;
pub const PX_60: u64 = 0x404e_0000_0000_0000;
pub const PX_90: u64 = 0x4056_8000_0000_0000;
pub const PX_150: u64 = 0x4062_c000_0000_0000;
pub const PX_180: u64 = 0x4066_8000_0000_0000;
pub const PX_200: u64 = 0x4069_0000_0000_0000;
pub const PX_208: u64 = 0x406a_0000_0000_0000;
pub const PX_280: u64 = 0x4071_8000_0000_0000;
pub const PX_300: u64 = 0x4072_c000_0000_0000;
pub const PX_320: u64 = 0x4074_0000_0000_0000;
pub const PX_328: u64 = 0x4074_8000_0000_0000;
pub const PX_400: u64 = 0x4079_0000_0000_0000;
pub const PX_560: u64 = 0x4081_8000_0000_0000;
pub const PX_580: u64 = 0x4082_2000_0000_0000;
pub const PX_640: u64 = 0x4084_0000_0000_0000;

/// Decision Map: a decision point, two options and their outcomes (200 by
/// 110 px cards), then four connectors between card centres.
pub open spec fn decision_map_recipe(
    ax: u64,
    ay: u64,
    ids: Seq<Seq<char>>,
    orders: Seq<Seq<char>>,
    sum: spec_fn(u64, u64) -> u64,
) -> Seq<ObjectView> {
    let c = LocalPoint { x: 800, y: 440 };
    seq![
        card_view("decision_point"@, "Decision point"@, 200, 110, sum(ax, PX_0), sum(ay, PX_180), ids[0], orders[0]),
        card_view("option"@, "Option A"@, 200, 110, sum(ax, PX_320), sum(ay, PX_60), ids[1], orders[1]),
        card_view("option"@, "Option B"@, 200, 110, sum(ax, PX_320), sum(ay, PX_300), ids[2], orders[2]),
        card_view("subdecision"@, "Outcome A"@, 200, 110, sum(ax, PX_640), sum(ay, PX_60), ids[3], orders[3]),
        card_view("subdecision"@, "Outcome B"@, 200, 110, sum(ax, PX_640), sum(ay, PX_300), ids[4], orders[4]),
        connector_view(ids[0], ids[1], c, ids[5], orders[5]),
        connector_view(ids[0], ids[2], c, ids[6], orders[6]),
        connector_view(ids[1], ids[3], c, ids[7], orders[7]),
        connector_view(ids[2], ids[4], c, ids[8], orders[8]),
    ]
}

/// A column of the to-do board (created `k`-th of the columns, so taking id
/// `3k`): a 240 by 460 px frame titled `title` at `col_x`.
pub open spec fn todo_column(
    title: Seq<char>,
    col_x: u64,
    k: int,
    ax: u64,
    ay: u64,
    ids: Seq<Seq<char>>,
    orders: Seq<Seq<char>>,
    sum: spec_fn(u64, u64) -> u64,
) -> ObjectView {
    framed_view("surface-muted"@, "default-stroke"@, title, 14, true, None, 240, 460, sum(ax, col_x), sum(ay, PX_0), ids[3 * k], orders[3 * k])
}

/// A task card of column `k` in row `row` (id `3k + 1 + row`), parented to
/// the column.
pub open spec fn todo_card(
    text: Seq<char>,
    card_x: u64,
    card_y: u64,
    k: int,
    row: int,
    ax: u64,
    ay: u64,
    ids: Seq<Seq<char>>,
    orders: Seq<Seq<char>>,
    sum: spec_fn(u64, u64) -> u64,
) -> ObjectView {
    ObjectView {
        parent: Some(ids[3 * k]),
        ..card_view("task"@, text, 200, 70, sum(ax, card_x), sum(ay, card_y), ids[3 * k + 1 + row], orders[3 * k + 1 + row])
    }
}

/// To-do Board: three column frames, then two task cards in each, the
/// columns first. Each column and its cards are created together.
pub open spec fn todo_board_recipe(
    ax: u64,
    ay: u64,
    ids: Seq<Seq<char>>,
    orders: Seq<Seq<char>>,
    sum: spec_fn(u64, u64) -> u64,
) -> Seq<ObjectView> {
    seq![
        todo_column("To do"@, PX_0, 0, ax, ay, ids, orders, sum),
        todo_column("In progress"@, PX_280, 1, ax, ay, ids, orders, sum),
        todo_column("Done"@, PX_560, 2, ax, ay, ids, orders, sum),
        todo_card("First task"@, PX_20, PX_60, 0, 0, ax, ay, ids, orders, sum),
        todo_card("New task"@, PX_20, PX_150, 0, 1, ax, ay, ids, orders, sum),
        todo_card("Working on it"@, PX_300, PX_60, 1, 0, ax, ay, ids, orders, sum),
        todo_card("New task"@, PX_300, PX_150, 1, 1, ax, ay, ids, orders, sum),
        todo_card("Shipped"@, PX_580, PX_60, 2, 0, ax, ay, ids, orders, sum),
        todo_card("New task"@, PX_580, PX_150, 2, 1, ax, ay, ids, orders, sum),
    ]
}

/// A slide of the presentation (id `1 + i`): a 280 by 160 px frame under the
/// deck.
pub open spec fn slide(
    title: Seq<char>,
    ox: u64,
    oy: u64,
    i: int,
    ax: u64,
    ay: u64,
    ids: Seq<Seq<char>>,
    orders: Seq<Seq<char>>,
    sum: spec_fn(u64, u64) -> u64,
) -> ObjectView {
    framed_view("surface"@, "default-stroke"@, title, 13, false, Some(ids[0]), 280, 160, sum(ax, ox), sum(ay, oy), ids[1 + i], orders[1 + i])
}

/// Presentation: a 632 by 392 px deck frame, then four slides in a 2x2 grid.
pub open spec fn presentation_recipe(
    ax: u64,
    ay: u64,
    ids: Seq<Seq<char>>,
    orders: Seq<Seq<char>>,
    sum: spec_fn(u64, u64) -> u64,
) -> Seq<ObjectView> {
    seq![
        framed_view("surface-muted"@, "default-stroke"@, "Deck"@, 16, true, None, 632, 392, sum(ax, PX_0), sum(ay, PX_0), ids[0], orders[0]),
        slide("Title slide"@, PX_24, PX_24, 0, ax, ay, ids, orders, sum),
        slide("Agenda"@, PX_328, PX_24, 1, ax, ay, ids, orders, sum),
        slide("Content"@, PX_24, PX_208, 2, ax, ay, ids, orders, sum),
        slide("Summary"@, PX_328, PX_208, 3, ax, ay, ids, orders, sum),
    ]
}

/// Idea Board: a central prompt card, then four idea cards around it (180 by
/// 100 px).
pub open spec fn idea_board_recipe(
    ax: u64,
    ay: u64,
    ids: Seq<Seq<char>>,
    orders: Seq<Seq<char>>,
    sum: spec_fn(u64, u64) -> u64,
) -> Seq<ObjectView> {
    seq![
        card_view("proposition"@, "Central idea"@, 180, 100, sum(ax, PX_280), sum(ay, PX_200), ids[0], orders[0]),
        card_view("evidence"@, "Idea 1"@, 180, 100, sum(ax, PX_0), sum(ay, PX_0), ids[1], orders[1]),
        card_view("evidence"@, "Idea 2"@, 180, 100, sum(ax, PX_560), sum(ay, PX_0), ids[2], orders[2]),
        card_view("evidence"@, "Idea 3"@, 180, 100, sum(ax, PX_0), sum(ay, PX_400), ids[3], orders[3]),
        card_view("evidence"@, "Idea 4"@, 180, 100, sum(ax, PX_560), sum(ay, PX_400), ids[4], orders[4]),
    ]
}

/// Wiki Note: a title card over a body card.
pub open spec fn wiki_note_recipe(
    ax: u64,
    ay: u64,
    ids: Seq<Seq<char>>,
    orders: Seq<Seq<char>>,
    sum: spec_fn(u64, u64) -> u64,
) -> Seq<ObjectView> {
    seq![
        card_view("decision"@, "Title"@, 420, 70, sum(ax, PX_0), sum(ay, PX_0), ids[0], orders[0]),
        card_view("default"@, "Write your note here..."@, 420, 320, sum(ax, PX_0), sum(ay, PX_90), ids[1], orders[1]),
    ]
}

/// A stub template: one 260 by 120 px titled card at the anchor.
pub open spec fn titled_recipe(
    preset: Seq<char>,
    title: Seq<char>,
    ax: u64,
    ay: u64,
    ids: Seq<Seq<char>>,
    orders: Seq<Seq<char>>,
    sum: spec_fn(u64, u64) -> u64,
) -> Seq<ObjectView> {
    seq![card_view(preset, title, 260, 120, sum(ax, PX_0), sum(ay, PX_0), ids[0], orders[0])]
}

/// How many objects (and so ids and order keys) template `t` takes.
pub open spec fn recipe_len(t: Seq<char>) -> nat {
    if t == "todo_board"@ || t == "decision_map"@ {
        9
    } else if t == "presentation"@ || t == "idea_board"@ {
        5
    } else if t == "wiki_note"@ {
        2
    } else if t == "adr"@ || t == "investigation_map"@ || t == "dependency_diagram"@ || t == "server_architecture"@ {
        1
    } else {
        0
    }
}

/// The objects template `t` builds with its origin at `(ax, ay)`, ids and
/// order keys taken in creation order; none for an unknown template.
pub open spec fn recipe(
    t: Seq<char>,
    ax: u64,
    ay: u64,
    ids: Seq<Seq<char>>,
    orders: Seq<Seq<char>>,
    sum: spec_fn(u64, u64) -> u64,
) -> Seq<ObjectView> {
    if t == "todo_board"@ {
        todo_board_recipe(ax, ay, ids, orders, sum)
    } else if t == "decision_map"@ {
        decision_map_recipe(ax, ay, ids, orders, sum)
    } else if t == "presentation"@ {
        presentation_recipe(ax, ay, ids, orders, sum)
    } else if t == "idea_board"@ {
        idea_board_recipe(ax, ay, ids, orders, sum)
    } else if t == "wiki_note"@ {
        wiki_note_recipe(ax, ay, ids, orders, sum)
    } else if t == "adr"@ {
        titled_recipe("decision"@, "ADR"@, ax, ay, ids, orders, sum)
    } else if t == "investigation_map"@ {
        titled_recipe("evidence"@, "Investigation Map"@, ax, ay, ids, orders, sum)
    } else if t == "dependency_diagram"@ {
        titled_recipe("artifact"@, "Dependency Diagram"@, ax, ay, ids, orders, sum)
    } else if t == "server_architecture"@ {
        titled_recipe("artifact"@, "Server Architecture"@, ax, ay, ids, orders, sum)
    } else {
        seq![]
    }
}

fn build_decision_map<A: Fn(u64, u64) -> u64>(ax: u64, ay: u64, ids: &[String], orders: &[String], plus: &A) -> (r: Vec<Object>)
    requires
        adds(*plus),
        ids@.len() >= 9,
        orders@.len() >= 9,
    ensures
        views(r@) == decision_map_recipe(ax, ay, strs(ids@), strs(orders@), sum_by(*plus)),
{
    let c = LocalPoint { x: 800, y: 440 };
    let x0 = add_bits(plus, ax, PX_0);
    let x320 = add_bits(plus, ax, PX_320);
    let x640 = add_bits(plus, ax, PX_640);
    let y60 = add_bits(plus, ay, PX_60);
    let y180 = add_bits(plus, ay, PX_180);
    let y300 = add_bits(plus, ay, PX_300);
    let mut r: Vec<Object> = Vec::new();
    r.push(card("decision_point", "Decision point", 200, 110, x0, y180, ids[0].as_str(), orders[0].as_str()));
    r.push(card("option", "Option A", 200, 110, x320, y60, ids[1].as_str(), orders[1].as_str()));
    r.push(card("option", "Option B", 200, 110, x320, y300, ids[2].as_str(), orders[2].as_str()));
    r.push(card("subdecision", "Outcome A", 200, 110, x640, y60, ids[3].as_str(), orders[3].as_str()));
    r.push(card("subdecision", "Outcome B", 200, 110, x640, y300, ids[4].as_str(), orders[4].as_str()));
    r.push(connector(ids[0].as_str(), ids[1].as_str(), c, ids[5].as_str(), orders[5].as_str()));
    r.push(connector(ids[0].as_str(), ids[2].as_str(), c, ids[6].as_str(), orders[6].as_str()));
    r.push(connector(ids[1].as_str(), ids[3].as_str(), c, ids[7].as_str(), orders[7].as_str()));
    r.push(connector(ids[2].as_str(), ids[4].as_str(), c, ids[8].as_str(), orders[8].as_str()));
    assert(views(r@) =~= decision_map_recipe(ax, ay, strs(ids@), strs(orders@), sum_by(*plus)));
    r
}

fn build_todo_board<A: Fn(u64, u64) -> u64>(ax: u64, ay: u64, ids: &[String], orders: &[String], plus: &A) -> (r: Vec<Object>)
    requires
        adds(*plus),
        ids@.len() >= 9,
        orders@.len() >= 9,
    ensures
        views(r@) == todo_board_recipe(ax, ay, strs(ids@), strs(orders@), sum_by(*plus)),
{
    let ghost (iv, ov, sum) = (strs(ids@), strs(orders@), sum_by(*plus));
    let y0 = add_bits(plus, ay, PX_0);
    let y60 = add_bits(plus, ay, PX_60);
    let y150 = add_bits(plus, ay, PX_150);
    let mut cols: Vec<Object> = Vec::new();
    let mut cards: Vec<Object> = Vec::new();
    cols.push(framed("surface-muted", "default-stroke", "To do", 14, true, None, 240, 460, add_bits(plus, ax, PX_0), y0, ids[0].as_str(), orders[0].as_str()));
    let mut c = card("task", "First task", 200, 70, add_bits(plus, ax, PX_20), y60, ids[1].as_str(), orders[1].as_str());
    c.parent = Some(ids[0].clone());
    cards.push(c);
    let mut c = card("task", "New task", 200, 70, add_bits(plus, ax, PX_20), y150, ids[2].as_str(), orders[2].as_str());
    c.parent = Some(ids[0].clone());
    cards.push(c);
    cols.push(framed("surface-muted", "default-stroke", "In progress", 14, true, None, 240, 460, add_bits(plus, ax, PX_280), y0, ids[3].as_str(), orders[3].as_str()));
    let mut c = card("task", "Working on it", 200, 70, add_bits(plus, ax, PX_300), y60, ids[4].as_str(), orders[4].as_str());
    c.parent = Some(ids[3].clone());
    cards.push(c);
    let mut c = card("task", "New task", 200, 70, add_bits(plus, ax, PX_300), y150, ids[5].as_str(), orders[5].as_str());
    c.parent = Some(ids[3].clone());
    cards.push(c);
    cols.push(framed("surface-muted", "default-stroke", "Done", 14, true, None, 240, 460, add_bits(plus, ax, PX_560), y0, ids[6].as_str(), orders[6].as_str()));
    let mut c = card("task", "Shipped", 200, 70, add_bits(plus, ax, PX_580), y60, ids[7].as_str(), orders[7].as_str());
    c.parent = Some(ids[6].clone());
    cards.push(c);
    let mut c = card("task", "New task", 200, 70, add_bits(plus, ax, PX_580), y150, ids[8].as_str(), orders[8].as_str());
    c.parent = Some(ids[6].clone());
    cards.push(c);
    let ghost (cv, kv) = (views(cols@), views(cards@));
    cols.append(&mut cards);
    assert(views(cols@) =~= cv + kv);
    assert(views(cols@) =~= todo_board_recipe(ax, ay, iv, ov, sum));
    cols
}

fn build_presentation<A: Fn(u64, u64) -> u64>(ax: u64, ay: u64, ids: &[String], orders: &[String], plus: &A) -> (r: Vec<Object>)
    requires
        adds(*plus),
        ids@.len() >= 5,
        orders@.len() >= 5,
    ensures
        views(r@) == presentation_recipe(ax, ay, strs(ids@), strs(orders@), sum_by(*plus)),
{
    let x24 = add_bits(plus, ax, PX_24);
    let x328 = add_bits(plus, ax, PX_328);
    let y24 = add_bits(plus, ay, PX_24);
    let y208 = add_bits(plus, ay, PX_208);
    let deck = ids[0].as_str();
    let mut r: Vec<Object> = Vec::new();
    r.push(framed("surface-muted", "default-stroke", "Deck", 16, true, None, 632, 392, add_bits(plus, ax, PX_0), add_bits(plus, ay, PX_0), deck, orders[0].as_str()));
    r.push(framed("surface", "default-stroke", "Title slide", 13, false, Some(deck), 280, 160, x24, y24, ids[1].as_str(), orders[1].as_str()));
    r.push(framed("surface", "default-stroke", "Agenda", 13, false, Some(deck), 280, 160, x328, y24, ids[2].as_str(), orders[2].as_str()));
    r.push(framed("surface", "default-stroke", "Content", 13, false, Some(deck), 280, 160, x24, y208, ids[3].as_str(), orders[3].as_str()));
    r.push(framed("surface", "default-stroke", "Summary", 13, false, Some(deck), 280, 160, x328, y208, ids[4].as_str(), orders[4].as_str()));
    assert(views(r@) =~= presentation_recipe(ax, ay, strs(ids@), strs(orders@), sum_by(*plus)));
    r
}

fn build_idea_board<A: Fn(u64, u64) -> u64>(ax: u64, ay: u64, ids: &[String], orders: &[String], plus: &A) -> (r: Vec<Object>)
    requires
        adds(*plus),
        ids@.len() >= 5,
        orders@.len() >= 5,
    ensures
        views(r@) == idea_board_recipe(ax, ay, strs(ids@), strs(orders@), sum_by(*plus)),
{
    let x0 = add_bits(plus, ax, PX_0);
    let x560 = add_bits(plus, ax, PX_560);
    let y0 = add_bits(plus, ay, PX_0);
    let y400 = add_bits(plus, ay, PX_400);
    let mut r: Vec<Object> = Vec::new();
    r.push(card("proposition", "Central idea", 180, 100, add_bits(plus, ax, PX_280), add_bits(plus, ay, PX_200), ids[0].as_str(), orders[0].as_str()));
    r.push(card("evidence", "Idea 1", 180, 100, x0, y0, ids[1].as_str(), orders[1].as_str()));
    r.push(card("evidence", "Idea 2", 180, 100, x560, y0, ids[2].as_str(), orders[2].as_str()));
    r.push(card("evidence", "Idea 3", 180, 100, x0, y400, ids[3].as_str(), orders[3].as_str()));
    r.push(card("evidence", "Idea 4", 180, 100, x560, y400, ids[4].as_str(), orders[4].as_str()));
    assert(views(r@) =~= idea_board_recipe(ax, ay, strs(ids@), strs(orders@), sum_by(*plus)));
    r
}

fn build_wiki_note<A: Fn(u64, u64) -> u64>(ax: u64, ay: u64, ids: &[String], orders: &[String], plus: &A) -> (r: Vec<Object>)
    requires
        adds(*plus),
        ids@.len() >= 2,
        orders@.len() >= 2,
    ensures
        views(r@) == wiki_note_recipe(ax, ay, strs(ids@), strs(orders@), sum_by(*plus)),
{
    let x0 = add_bits(plus, ax, PX_0);
    let mut r: Vec<Object> = Vec::new();
    r.push(card("decision", "Title", 420, 70, x0, add_bits(plus, ay, PX_0), ids[0].as_str(), orders[0].as_str()));
    r.push(card("default", "Write your note here...", 420, 320, x0, add_bits(plus, ay, PX_90), ids[1].as_str(), orders[1].as_str()));
    assert(views(r@) =~= wiki_note_recipe(ax, ay, strs(ids@), strs(orders@), sum_by(*plus)));
    r
}

fn build_titled<A: Fn(u64, u64) -> u64>(
    preset: &str,
    title: &str,
    ax: u64,
    ay: u64,
    ids: &[String],
    orders: &[String],
    plus: &A,
) -> (r: Vec<Object>)
    requires
        adds(*plus),
        ids@.len() >= 1,
        orders@.len() >= 1,
    ensures
        views(r@) == titled_recipe(preset@, title@, ax, ay, strs(ids@), strs(orders@), sum_by(*plus)),
{
    let mut r: Vec<Object> = Vec::new();
    r.push(card(preset, title, 260, 120, add_bits(plus, ax, PX_0), add_bits(plus, ay, PX_0), ids[0].as_str(), orders[0].as_str()));
    assert(views(r@) =~= titled_recipe(preset@, title@, ax, ay, strs(ids@), strs(orders@), sum_by(*plus)));
    r
}

/// Builds template `template_id`'s objects with its origin at world
/// `(anchor_x, anchor_y)` (`f64` bit patterns), each object's placement the
/// anchor plus its offset by `plus`. The recipe takes its ids and order keys
/// from `ids` and `orders` in the order it creates objects (see [`recipe`]);
/// an unknown template builds nothing.
pub fn build_template<A: Fn(u64, u64) -> u64>(
    template_id: &str,
    anchor_x: u64,
    anchor_y: u64,
    ids: &[String],
    orders: &[String],
    plus: &A,
) -> (r: Vec<Object>)
    requires
        adds(*plus),
        ids@.len() >= recipe_len(template_id@),
        orders@.len() >= recipe_len(template_id@),
    ensures
        views(r@) == recipe(template_id@, anchor_x, anchor_y, strs(ids@), strs(orders@), sum_by(*plus)),
{
    let (ax, ay) = (anchor_x, anchor_y);
    if str_eq(template_id, "todo_board") {
        build_todo_board(ax, ay, ids, orders, plus)
    } else if str_eq(template_id, "decision_map") {
        build_decision_map(ax, ay, ids, orders, plus)
    } else if str_eq(template_id, "presentation") {
        build_presentation(ax, ay, ids, orders, plus)
    } else if str_eq(template_id, "idea_board") {
        build_idea_board(ax, ay, ids, orders, plus)
    } else if str_eq(template_id, "wiki_note") {
        build_wiki_note(ax, ay, ids, orders, plus)
    } else if str_eq(template_id, "adr") {
        build_titled("decision", "ADR", ax, ay, ids, orders, plus)
    } else if str_eq(template_id, "investigation_map") {
        build_titled("evidence", "Investigation Map", ax, ay, ids, orders, plus)
    } else if str_eq(template_id, "dependency_diagram") {
        build_titled("artifact", "Dependency Diagram", ax, ay, ids, orders, plus)
    } else if str_eq(template_id, "server_architecture") {
        build_titled("artifact", "Server Architecture", ax, ay, ids, orders, plus)
    } else {
        let r: Vec<Object> = Vec::new();
        assert(views(r@) =~= Seq::<ObjectView>::empty());
        r
    }
}

/// How many objects template `template_id` creates, and so how many ids and
/// order keys [`build_template`] takes (see [`recipe_len`]).
pub fn recipe_size(template_id: &str) -> (r: usize)
    ensures
        r == recipe_len(template_id@),
{
    if str_eq(template_id, "todo_board") || str_eq(template_id, "decision_map") {
        9
    } else if str_eq(template_id, "presentation") || str_eq(template_id, "idea_board") {
        5
    } else if str_eq(template_id, "wiki_note") {
        2
    } else if str_eq(template_id, "adr") || str_eq(template_id, "investigation_map") || str_eq(template_id, "dependency_diagram")
        || str_eq(template_id, "server_architecture") {
        1
    } else {
        0
    }
}

} // verus!
