//! The object model: every canvas thing is an [`Object`] with a quantized
//! path geometry, a world transform, optional style/text/layout, anchors onto
//! other objects, comments and tags. Objects nest through `parent` and paint in
//! fractional `order`.
//!
//! Geometry coordinates are object-local integers in units of
//! [`GEOMETRY_QUANTUM_PER_PX`] per logical pixel. Real-valued quantities
//! (transform entries, opacities) are carried as the IEEE-754 bit patterns of
//! their `f64` values.

use vstd::prelude::*;

use crate::model::{Tag, TagView};
use crate::text::{copy_strings, strs};

verus! {

/// Quantized geometry units per logical pixel.
pub const GEOMETRY_QUANTUM_PER_PX: i32 = 8;

pub type ObjectId = String;

/// A point in object-local quantized units.
#[derive(Clone, Copy, Debug, PartialEq, Eq, Hash, Structural)]
pub struct LocalPoint {
    pub x: i32,
    pub y: i32,
}

/// One node of a path: its position and optional Bézier handles.
#[derive(Clone, Copy, Debug, PartialEq, Eq, Structural)]
pub struct PathNode {
    pub x: i32,
    pub y: i32,
    pub in_handle: Option<LocalPoint>,
    pub out_handle: Option<LocalPoint>,
    pub width: Option<i32>,
}

impl PathNode {
    /// A sharp node (no handles) at `(x, y)`.
    pub fn corner(x: i32, y: i32) -> (r: Self)
        ensures
            r == (PathNode { x, y, in_handle: None, out_handle: None, width: None }),
    {
        PathNode { x, y, in_handle: None, out_handle: None, width: None }
    }
}

#[derive(Clone, Copy, Debug, PartialEq, Eq, Structural)]
pub enum FillRule {
    NonZero,
    EvenOdd,
}

/// A run of path nodes, open or closed.
#[derive(Clone, Debug, PartialEq, Eq)]
pub struct SubPath {
    pub closed: bool,
    pub nodes: Vec<PathNode>,
}

pub struct SubPathView {
    pub closed: bool,
    pub nodes: Seq<PathNode>,
}

impl View for SubPath {
    type V = SubPathView;

    open spec fn view(&self) -> SubPathView {
        SubPathView { closed: self.closed, nodes: self.nodes@ }
    }
}

pub open spec fn subpath_views(v: Seq<SubPath>) -> Seq<SubPathView> {
    v.map_values(|s: SubPath| s@)
}

impl SubPath {
    pub fn copy_of(&self) -> (r: Self)
        ensures
            r@ == self@,
    {
        SubPath { closed: self.closed, nodes: self.nodes.clone() }
    }
}

/// A copy of a list of subpaths.
pub fn copy_subpaths(v: &Vec<SubPath>) -> (r: Vec<SubPath>)
    ensures
        subpath_views(r@) == subpath_views(v@),
{
    let mut r: Vec<SubPath> = Vec::new();
    let mut i: usize = 0;
    while i < v.len()
        invariant
            i <= v@.len(),
            subpath_views(r@) == subpath_views(v@).subrange(0, i as int),
        decreases v@.len() - i,
    {
        let c = v[i].copy_of();
        let ghost before = r@;
        r.push(c);
        proof {
            assert(subpath_views(r@) =~= subpath_views(before).push(c@));
            assert(subpath_views(r@) =~= subpath_views(v@).subrange(0, i + 1));
        }
        i = i + 1;
    }
    proof {
        assert(subpath_views(v@).subrange(0, v@.len() as int) =~= subpath_views(v@));
    }
    r
}

/// An object's shape: its path text and the subpaths it parses to (empty
/// until parsed).
#[derive(Clone, Debug, PartialEq, Eq)]
pub struct Geometry {
    pub path_string: String,
    pub fill_rule: FillRule,
    pub subpaths: Vec<SubPath>,
}

pub struct GeometryView {
    pub path_string: Seq<char>,
    pub fill_rule: FillRule,
    pub subpaths: Seq<SubPathView>,
}

impl View for Geometry {
    type V = GeometryView;

    open spec fn view(&self) -> GeometryView {
        GeometryView {
            path_string: self.path_string@,
            fill_rule: self.fill_rule,
            subpaths: subpath_views(self.subpaths@),
        }
    }
}

impl Geometry {
    pub fn copy_of(&self) -> (r: Self)
        ensures
            r@ == self@,
    {
        Geometry {
            path_string: self.path_string.clone(),
            fill_rule: self.fill_rule,
            subpaths: copy_subpaths(&self.subpaths),
        }
    }
}

/// A 3x3 row-major world transform; each entry is the bit pattern of an `f64`.
#[derive(Clone, Copy, Debug, PartialEq, Eq)]
pub struct Transform3x3 {
    pub m: [[u64; 3]; 3],
}

/// The bit pattern of `0.0_f64`.
pub const F64_ZERO_BITS: u64 = 0;

/// The bit pattern of `1.0_f64`.
pub const F64_ONE_BITS: u64 = 0x3ff0_0000_0000_0000;

impl Transform3x3 {
    /// The identity transform.
    pub fn identity() -> (r: Self)
        ensures
            r.m == [[F64_ONE_BITS, F64_ZERO_BITS, F64_ZERO_BITS], [F64_ZERO_BITS, F64_ONE_BITS, F64_ZERO_BITS], [
                F64_ZERO_BITS,
                F64_ZERO_BITS,
                F64_ONE_BITS,
            ]],
    {
        Transform3x3 {
            m: [[F64_ONE_BITS, F64_ZERO_BITS, F64_ZERO_BITS], [F64_ZERO_BITS, F64_ONE_BITS, F64_ZERO_BITS], [
                F64_ZERO_BITS,
                F64_ZERO_BITS,
                F64_ONE_BITS,
            ]],
        }
    }
}

/// A colour: a CSS colour string or a theme token name.
#[derive(Clone, Debug, PartialEq, Eq)]
pub enum Paint {
    Solid { color: String },
    Token { name: String },
}

pub enum PaintView {
    Solid { color: Seq<char> },
    Token { name: Seq<char> },
}

impl View for Paint {
    type V = PaintView;

    open spec fn view(&self) -> PaintView {
        match self {
            Paint::Solid { color } => PaintView::Solid { color: color@ },
            Paint::Token { name } => PaintView::Token { name: name@ },
        }
    }
}

impl Paint {
    pub fn copy_of(&self) -> (r: Self)
        ensures
            r@ == self@,
    {
        match self {
            Paint::Solid { color } => Paint::Solid { color: color.clone() },
            Paint::Token { name } => Paint::Token { name: name.clone() },
        }
    }
}

#[derive(Clone, Debug, PartialEq)]
pub struct Fill {
    pub paint: Paint,
    /// Bit pattern of the `f64` opacity in `[0, 1]`.
    pub opacity: u64,
}

pub struct FillView {
    pub paint: PaintView,
    pub opacity: u64,
}

impl View for Fill {
    type V = FillView;

    open spec fn view(&self) -> FillView {
        FillView { paint: self.paint@, opacity: self.opacity }
    }
}

impl Fill {
    pub fn copy_of(&self) -> (r: Self)
        ensures
            r@ == self@,
    {
        Fill { paint: self.paint.copy_of(), opacity: self.opacity }
    }
}

#[derive(Clone, Copy, Debug, PartialEq, Eq, Structural)]
pub enum LineCap {
    Butt,
    Round,
    Square,
}

#[derive(Clone, Copy, Debug, PartialEq, Eq, Structural)]
pub enum LineJoin {
    Miter,
    Round,
    Bevel,
}

#[derive(Clone, Debug, PartialEq)]
pub struct Stroke {
    pub paint: Paint,
    /// Width in quantized units.
    pub width: i32,
    /// Bit pattern of the `f64` opacity in `[0, 1]`.
    pub opacity: u64,
    pub dash: Vec<i32>,
    pub cap: LineCap,
    pub join: LineJoin,
}

pub struct StrokeView {
    pub paint: PaintView,
    pub width: i32,
    pub opacity: u64,
    pub dash: Seq<i32>,
    pub cap: LineCap,
    pub join: LineJoin,
}

impl View for Stroke {
    type V = StrokeView;

    open spec fn view(&self) -> StrokeView {
        StrokeView {
            paint: self.paint@,
            width: self.width,
            opacity: self.opacity,
            dash: self.dash@,
            cap: self.cap,
            join: self.join,
        }
    }
}

impl Stroke {
    pub fn copy_of(&self) -> (r: Self)
        ensures
            r@ == self@,
    {
        Stroke {
            paint: self.paint.copy_of(),
            width: self.width,
            opacity: self.opacity,
            dash: self.dash.clone(),
            cap: self.cap,
            join: self.join,
        }
    }
}

#[derive(Clone, Copy, Debug, PartialEq, Eq, Structural)]
pub enum TextAlign {
    Start,
    Center,
    End,
}

#[derive(Clone, Copy, Debug, PartialEq, Eq, Structural)]
pub enum TextVAlign {
    Top,
    Middle,
    Bottom,
}

/// A styled run of text.
#[derive(Clone, Debug, PartialEq, Eq)]
pub struct TextRun {
    pub text: String,
    pub color: Option<String>,
    /// Font size in quantized units.
    pub size: Option<i32>,
    pub bold: bool,
    pub italic: bool,
    pub font: Option<String>,
}

pub open spec fn opt_str(o: Option<String>) -> Option<Seq<char>> {
    match o {
        Some(s) => Some(s@),
        None => None,
    }
}

pub fn copy_opt_str(o: &Option<String>) -> (r: Option<String>)
    ensures
        opt_str(r) == opt_str(*o),
{
    match o {
        Some(s) => Some(s.clone()),
        None => None,
    }
}

pub struct TextRunView {
    pub text: Seq<char>,
    pub color: Option<Seq<char>>,
    pub size: Option<i32>,
    pub bold: bool,
    pub italic: bool,
    pub font: Option<Seq<char>>,
}

impl View for TextRun {
    type V = TextRunView;

    open spec fn view(&self) -> TextRunView {
        TextRunView {
            text: self.text@,
            color: opt_str(self.color),
            size: self.size,
            bold: self.bold,
            italic: self.italic,
            font: opt_str(self.font),
        }
    }
}

impl TextRun {
    pub fn copy_of(&self) -> (r: Self)
        ensures
            r@ == self@,
    {
        TextRun {
            text: self.text.clone(),
            color: copy_opt_str(&self.color),
            size: self.size,
            bold: self.bold,
            italic: self.italic,
            font: copy_opt_str(&self.font),
        }
    }
}

pub open spec fn run_views(v: Seq<TextRun>) -> Seq<TextRunView> {
    v.map_values(|t: TextRun| t@)
}

/// An object's text: styled runs and their alignment in the box.
#[derive(Clone, Debug, PartialEq, Eq)]
pub struct Text {
    pub runs: Vec<TextRun>,
    pub align: TextAlign,
    pub valign: TextVAlign,
}

pub struct TextView {
    pub runs: Seq<TextRunView>,
    pub align: TextAlign,
    pub valign: TextVAlign,
}

impl View for Text {
    type V = TextView;

    open spec fn view(&self) -> TextView {
        TextView { runs: run_views(self.runs@), align: self.align, valign: self.valign }
    }
}

impl Text {
    pub fn copy_of(&self) -> (r: Self)
        ensures
            r@ == self@,
    {
        let mut runs: Vec<TextRun> = Vec::new();
        let mut i: usize = 0;
        while i < self.runs.len()
            invariant
                i <= self.runs@.len(),
                run_views(runs@) == run_views(self.runs@).subrange(0, i as int),
            decreases self.runs@.len() - i,
        {
            let c = self.runs[i].copy_of();
            let ghost before = runs@;
            runs.push(c);
            proof {
                assert(run_views(runs@) =~= run_views(before).push(c@));
                assert(run_views(runs@) =~= run_views(self.runs@).subrange(0, i + 1));
            }
            i = i + 1;
        }
        proof {
            assert(run_views(self.runs@).subrange(0, self.runs@.len() as int) =~= run_views(self.runs@));
        }
        Text { runs, align: self.align, valign: self.valign }
    }
}

/// An anchor: path node `node_index` of the anchored object is glued to the
/// point `at` on the outline of object `target`.
#[derive(Clone, Debug, PartialEq, Eq)]
pub struct Anchor {
    pub node_index: u32,
    pub target: ObjectId,
    pub at: LocalPoint,
}

pub struct AnchorView {
    pub node_index: u32,
    pub target: Seq<char>,
    pub at: LocalPoint,
}

impl View for Anchor {
    type V = AnchorView;

    open spec fn view(&self) -> AnchorView {
        AnchorView { node_index: self.node_index, target: self.target@, at: self.at }
    }
}

impl Anchor {
    pub fn copy_of(&self) -> (r: Self)
        ensures
            r@ == self@,
    {
        Anchor { node_index: self.node_index, target: self.target.clone(), at: self.at }
    }
}

pub open spec fn anchor_views(v: Seq<Anchor>) -> Seq<AnchorView> {
    v.map_values(|a: Anchor| a@)
}

/// A copy of a list of anchors.
pub fn copy_anchors(v: &Vec<Anchor>) -> (r: Vec<Anchor>)
    ensures
        anchor_views(r@) == anchor_views(v@),
{
    let mut r: Vec<Anchor> = Vec::new();
    let mut i: usize = 0;
    while i < v.len()
        invariant
            i <= v@.len(),
            anchor_views(r@) == anchor_views(v@).subrange(0, i as int),
        decreases v@.len() - i,
    {
        let c = v[i].copy_of();
        let ghost before = r@;
        r.push(c);
        proof {
            assert(anchor_views(r@) =~= anchor_views(before).push(c@));
            assert(anchor_views(r@) =~= anchor_views(v@).subrange(0, i + 1));
        }
        i = i + 1;
    }
    proof {
        assert(anchor_views(v@).subrange(0, v@.len() as int) =~= anchor_views(v@));
    }
    r
}

#[derive(Clone, Copy, Debug, PartialEq, Eq, Structural)]
pub enum LayoutAxis {
    Horizontal,
    Vertical,
}

#[derive(Clone, Copy, Debug, PartialEq, Eq, Structural)]
pub enum Lanes {
    Count { value: u32 },
    Fill,
}

#[derive(Clone, Copy, Debug, PartialEq, Eq, Structural)]
pub enum MainAlign {
    Start,
    Center,
    End,
    SpaceBetween,
}

#[derive(Clone, Copy, Debug, PartialEq, Eq, Structural)]
pub enum CrossAlign {
    Start,
    Center,
    End,
    Stretch,
}

#[derive(Clone, Copy, Debug, PartialEq, Eq, Structural)]
pub struct Align {
    pub main: MainAlign,
    pub cross: CrossAlign,
}

/// Auto-layout of a container's children.
#[derive(Clone, Copy, Debug, PartialEq, Eq, Structural)]
pub struct Layout {
    pub axis: LayoutAxis,
    pub lanes: Lanes,
    /// Gap between children in quantized units.
    pub spacing: i32,
    pub align: Align,
}

/// A comment pinned to an object.
#[derive(Clone, Debug, PartialEq, Eq)]
pub struct Comment {
    pub id: String,
    pub author: String,
    pub body: String,
    pub created_at: String,
}

pub struct CommentView {
    pub id: Seq<char>,
    pub author: Seq<char>,
    pub body: Seq<char>,
    pub created_at: Seq<char>,
}

impl View for Comment {
    type V = CommentView;

    open spec fn view(&self) -> CommentView {
        CommentView { id: self.id@, author: self.author@, body: self.body@, created_at: self.created_at@ }
    }
}

impl Comment {
    pub fn copy_of(&self) -> (r: Self)
        ensures
            r@ == self@,
    {
        Comment {
            id: self.id.clone(),
            author: self.author.clone(),
            body: self.body.clone(),
            created_at: self.created_at.clone(),
        }
    }
}

pub open spec fn comment_views(v: Seq<Comment>) -> Seq<CommentView> {
    v.map_values(|c: Comment| c@)
}

/// A copy of a list of comments.
pub fn copy_comments(v: &Vec<Comment>) -> (r: Vec<Comment>)
    ensures
        comment_views(r@) == comment_views(v@),
{
    let mut r: Vec<Comment> = Vec::new();
    let mut i: usize = 0;
    while i < v.len()
        invariant
            i <= v@.len(),
            comment_views(r@) == comment_views(v@).subrange(0, i as int),
        decreases v@.len() - i,
    {
        let c = v[i].copy_of();
        let ghost before = r@;
        r.push(c);
        proof {
            assert(comment_views(r@) =~= comment_views(before).push(c@));
            assert(comment_views(r@) =~= comment_views(v@).subrange(0, i + 1));
        }
        i = i + 1;
    }
    proof {
        assert(comment_views(v@).subrange(0, v@.len() as int) =~= comment_views(v@));
    }
    r
}

pub open spec fn opt_view<T: View>(o: Option<T>) -> Option<T::V> {
    match o {
        Some(t) => Some(t@),
        None => None,
    }
}

/// A canvas object.
#[derive(Clone, Debug, PartialEq)]
pub struct Object {
    pub id: ObjectId,
    /// Fractional paint-order key among siblings.
    pub order: String,
    /// The containing object; `None` at the canvas root.
    pub parent: Option<ObjectId>,
    pub geometry: Geometry,
    pub transform: Transform3x3,
    pub fill: Option<Fill>,
    pub stroke: Option<Stroke>,
    pub text: Option<Text>,
    pub anchors: Vec<Anchor>,
    pub layout: Option<Layout>,
    pub clip: Option<bool>,
    pub comments: Vec<Comment>,
    pub tags: Vec<String>,
}

pub struct ObjectView {
    pub id: Seq<char>,
    pub order: Seq<char>,
    pub parent: Option<Seq<char>>,
    pub geometry: GeometryView,
    pub transform: Transform3x3,
    pub fill: Option<FillView>,
    pub stroke: Option<StrokeView>,
    pub text: Option<TextView>,
    pub anchors: Seq<AnchorView>,
    pub layout: Option<Layout>,
    pub clip: Option<bool>,
    pub comments: Seq<CommentView>,
    pub tags: Seq<Seq<char>>,
}

impl View for Object {
    type V = ObjectView;

    open spec fn view(&self) -> ObjectView {
        ObjectView {
            id: self.id@,
            order: self.order@,
            parent: opt_str(self.parent),
            geometry: self.geometry@,
            transform: self.transform,
            fill: opt_view(self.fill),
            stroke: opt_view(self.stroke),
            text: opt_view(self.text),
            anchors: anchor_views(self.anchors@),
            layout: self.layout,
            clip: self.clip,
            comments: comment_views(self.comments@),
            tags: strs(self.tags@),
        }
    }
}

impl Object {
    /// A bare object: identity transform, no style, text, anchors, layout,
    /// clip, comments or tags, at the canvas root.
    pub fn new(id: &str, order: &str, geometry: Geometry) -> (r: Self)
        ensures
            r@.id == id@,
            r@.order == order@,
            r@.parent is None,
            r.geometry == geometry,
            r.transform == Transform3x3::identity_value(),
            r.fill is None,
            r.stroke is None,
            r.text is None,
            r.anchors@.len() == 0,
            r.layout is None,
            r.clip is None,
            r.comments@.len() == 0,
            r.tags@.len() == 0,
    {
        Object {
            id: id.to_owned(),
            order: order.to_owned(),
            parent: None,
            geometry,
            transform: Transform3x3::identity(),
            fill: None,
            stroke: None,
            text: None,
            anchors: Vec::new(),
            layout: None,
            clip: None,
            comments: Vec::new(),
            tags: Vec::new(),
        }
    }

    pub fn copy_of(&self) -> (r: Self)
        ensures
            r@ == self@,
    {
        Object {
            id: self.id.clone(),
            order: self.order.clone(),
            parent: copy_opt_str(&self.parent),
            geometry: self.geometry.copy_of(),
            transform: self.transform,
            fill: match &self.fill {
                Some(f) => Some(f.copy_of()),
                None => None,
            },
            stroke: match &self.stroke {
                Some(s) => Some(s.copy_of()),
                None => None,
            },
            text: match &self.text {
                Some(t) => Some(t.copy_of()),
                None => None,
            },
            anchors: copy_anchors(&self.anchors),
            layout: self.layout,
            clip: self.clip,
            comments: copy_comments(&self.comments),
            tags: copy_strings(&self.tags),
        }
    }
}

impl Transform3x3 {
    pub open spec fn identity_value() -> Transform3x3 {
        Transform3x3 {
            m: [[F64_ONE_BITS, F64_ZERO_BITS, F64_ZERO_BITS], [F64_ZERO_BITS, F64_ONE_BITS, F64_ZERO_BITS], [
                F64_ZERO_BITS,
                F64_ZERO_BITS,
                F64_ONE_BITS,
            ]],
        }
    }
}

/// What is selected among the objects.
#[derive(Clone, Debug, PartialEq, Eq)]
pub enum ObjectSelection {
    Canvas,
    Object { id: ObjectId },
    Multi { ids: Vec<ObjectId> },
}

pub enum ObjectSelectionView {
    Canvas,
    Object { id: Seq<char> },
    Multi { ids: Seq<Seq<char>> },
}

impl View for ObjectSelection {
    type V = ObjectSelectionView;

    open spec fn view(&self) -> ObjectSelectionView {
        match self {
            ObjectSelection::Canvas => ObjectSelectionView::Canvas,
            ObjectSelection::Object { id } => ObjectSelectionView::Object { id: id@ },
            ObjectSelection::Multi { ids } => ObjectSelectionView::Multi { ids: strs(ids@) },
        }
    }
}

impl ObjectSelection {
    pub fn copy_of(&self) -> (r: Self)
        ensures
            r@ == self@,
    {
        match self {
            ObjectSelection::Canvas => ObjectSelection::Canvas,
            ObjectSelection::Object { id } => ObjectSelection::Object { id: id.clone() },
            ObjectSelection::Multi { ids } => ObjectSelection::Multi { ids: copy_strings(ids) },
        }
    }
}

pub open spec fn object_views(v: Seq<Object>) -> Seq<ObjectView> {
    v.map_values(|o: Object| o@)
}

pub open spec fn tag_list_views(v: Seq<Tag>) -> Seq<TagView> {
    v.map_values(|t: Tag| t@)
}

/// The objects of a canvas with the scene-level tag table and selection.
#[derive(Clone, Debug, PartialEq)]
pub struct ObjectScene {
    pub scene_version: u64,
    pub objects: Vec<Object>,
    pub tags: Vec<Tag>,
    pub selection: ObjectSelection,
    pub updated_at: String,
}

pub struct ObjectSceneView {
    pub scene_version: u64,
    pub objects: Seq<ObjectView>,
    pub tags: Seq<TagView>,
    pub selection: ObjectSelectionView,
    pub updated_at: Seq<char>,
}

impl View for ObjectScene {
    type V = ObjectSceneView;

    open spec fn view(&self) -> ObjectSceneView {
        ObjectSceneView {
            scene_version: self.scene_version,
            objects: object_views(self.objects@),
            tags: tag_list_views(self.tags@),
            selection: self.selection@,
            updated_at: self.updated_at@,
        }
    }
}

/// The position of the first object with id `id`.
pub open spec fn object_index(objects: Seq<ObjectView>, id: Seq<char>, i: int) -> bool {
    &&& 0 <= i < objects.len()
    &&& objects[i].id == id
    &&& forall|j: int| 0 <= j < i ==> objects[j].id != id
}

/// The first object with id `id`, if any.
pub open spec fn find_object(objects: Seq<ObjectView>, id: Seq<char>) -> Option<ObjectView> {
    if exists|i: int| object_index(objects, id, i) {
        Some(objects[choose|i: int| object_index(objects, id, i)])
    } else {
        None
    }
}

impl ObjectScene {
    /// The position of the first object with id `id`.
    pub fn position(&self, id: &str) -> (r: Option<usize>)
        ensures
            match r {
                Some(i) => object_index(self@.objects, id@, i as int),
                None => forall|j: int| 0 <= j < self@.objects.len() ==> self@.objects[j].id != id@,
            },
    {
        let mut i: usize = 0;
        while i < self.objects.len()
            invariant
                i <= self.objects@.len(),
                forall|j: int| 0 <= j < i ==> self@.objects[j].id != id@,
            decreases self.objects@.len() - i,
        {
            proof {
                assert(self@.objects[i as int] == self.objects@[i as int]@);
            }
            if crate::text::str_eq(self.objects[i].id.as_str(), id) {
                return Some(i);
            }
            i = i + 1;
        }
        None
    }

    /// The first object with id `id`.
    pub fn get(&self, id: &str) -> (r: Option<&Object>)
        ensures
            match r {
                Some(o) => find_object(self@.objects, id@) == Some(o@),
                None => find_object(self@.objects, id@) is None,
            },
    {
        match self.position(id) {
            Some(i) => {
                proof {
                    let c = choose|c: int| object_index(self@.objects, id@, c);
                    assert(c == i);
                    assert(self@.objects[i as int] == self.objects@[i as int]@);
                }
                Some(&self.objects[i])
            },
            None => None,
        }
    }
}

/// A copy of a list of objects.
pub fn copy_objects(v: &Vec<Object>) -> (r: Vec<Object>)
    ensures
        object_views(r@) == object_views(v@),
{
    let mut r: Vec<Object> = Vec::new();
    let mut i: usize = 0;
    while i < v.len()
        invariant
            i <= v@.len(),
            object_views(r@) == object_views(v@).subrange(0, i as int),
        decreases v@.len() - i,
    {
        let c = v[i].copy_of();
        let ghost before = r@;
        r.push(c);
        proof {
            assert(object_views(r@) =~= object_views(before).push(c@));
            assert(object_views(r@) =~= object_views(v@).subrange(0, i + 1));
        }
        i = i + 1;
    }
    proof {
        assert(object_views(v@).subrange(0, v@.len() as int) =~= object_views(v@));
    }
    r
}

/// A copy of a tag table.
pub fn copy_tags(v: &Vec<Tag>) -> (r: Vec<Tag>)
    ensures
        tag_list_views(r@) == tag_list_views(v@),
{
    let mut r: Vec<Tag> = Vec::new();
    let mut i: usize = 0;
    while i < v.len()
        invariant
            i <= v@.len(),
            tag_list_views(r@) == tag_list_views(v@).subrange(0, i as int),
        decreases v@.len() - i,
    {
        let c = v[i].copy_of();
        let ghost before = r@;
        r.push(c);
        proof {
            assert(tag_list_views(r@) =~= tag_list_views(before).push(c@));
            assert(tag_list_views(r@) =~= tag_list_views(v@).subrange(0, i + 1));
        }
        i = i + 1;
    }
    proof {
        assert(tag_list_views(v@).subrange(0, v@.len() as int) =~= tag_list_views(v@));
    }
    r
}

impl ObjectScene {
    pub fn copy_of(&self) -> (r: Self)
        ensures
            r@ == self@,
    {
        ObjectScene {
            scene_version: self.scene_version,
            objects: copy_objects(&self.objects),
            tags: copy_tags(&self.tags),
            selection: self.selection.copy_of(),
            updated_at: self.updated_at.clone(),
        }
    }
}

impl Default for ObjectScene {
    fn default() -> (r: Self)
        ensures
            r@.scene_version == 0,
            r@.objects.len() == 0,
            r@.tags.len() == 0,
            r@.selection == ObjectSelectionView::Canvas,
            r@.updated_at.len() == 0,
    {
        ObjectScene {
            scene_version: 0,
            objects: Vec::new(),
            tags: Vec::new(),
            selection: ObjectSelection::Canvas,
            updated_at: String::new(),
        }
    }
}

} // verus!
