//! What a Glyphs source holds, as far as it decides anything here.

use crate::coords::Real;
use crate::lookup;
use vstd::prelude::*;

verus! {

/// What kind of point a node is. Smoothness only matters to editors.
#[derive(Debug, Clone, Copy, PartialEq, Eq, Structural)]
pub enum NodeType {
    Line,
    LineSmooth,
    OffCurve,
    Curve,
    CurveSmooth,
    QCurve,
    QCurveSmooth,
}

/// A point of a path.
#[derive(Debug, Clone, Copy, PartialEq, Eq, Structural)]
pub struct Node {
    pub x: Real,
    pub y: Real,
    pub node_type: NodeType,
}

/// A color.
#[derive(Debug, Clone, Copy, PartialEq, Eq, Structural)]
pub struct Color {
    pub r: i64,
    pub g: i64,
    pub b: i64,
    pub a: i64,
}

/// A color at a position of a gradient.
#[derive(Debug, Clone, Copy, PartialEq, Eq, Structural)]
pub struct ColorStop {
    pub color: Color,
    pub stop_offset: Real,
}

/// A gradient. Positions are fractions of the bounding box.
#[derive(Debug, PartialEq, Eq)]
pub struct Gradient {
    pub start: Vec<Real>,
    pub end: Vec<Real>,
    pub style: String,
    pub colors: Vec<ColorStop>,
}

/// How a shape is painted.
#[derive(Debug, Default, PartialEq, Eq)]
pub struct ShapeAttributes {
    pub gradient: Option<Gradient>,
    pub fill_color: Option<Color>,
}

/// A contour.
#[derive(Debug, Default, PartialEq, Eq)]
pub struct Path {
    pub closed: bool,
    pub nodes: Vec<Node>,
    pub attributes: ShapeAttributes,
}

/// A glyph drawn as part of another.
#[derive(Debug, PartialEq, Eq)]
pub struct Component {
    pub name: String,
    pub transform: [Real; 6],
    pub anchor: Option<String>,
    pub attributes: ShapeAttributes,
}

/// Something a layer is drawn with.
#[derive(Debug, PartialEq, Eq)]
pub enum Shape {
    Path(Path),
    Component(Component),
}

/// What is special about a layer.
#[derive(Debug, Default, Clone, Copy, PartialEq, Eq, Structural)]
pub struct LayerAttributes {
    /// Whether the shapes carry paints of their own.
    pub color: bool,
    /// Which color of the palette the layer is painted in.
    pub color_palette: Option<i64>,
}

/// One drawing of a glyph.
#[derive(Debug, Default, PartialEq, Eq)]
pub struct Layer {
    pub layer_id: String,
    /// The master this layer belongs to, unless it is a master itself.
    pub associated_master_id: Option<String>,
    pub shapes: Vec<Shape>,
    pub attributes: LayerAttributes,
    /// Whether the layer is painted in any way.
    pub is_color: bool,
    /// Which layer of the source holds everything else there is to know.
    pub rest: usize,
}

/// A glyph and its layers.
#[derive(Debug, Default, PartialEq, Eq)]
pub struct Glyph {
    pub name: String,
    pub production_name: Option<String>,
    pub export: bool,
    pub layers: Vec<Layer>,
}

/// What a gradient is.
pub struct GradientView {
    pub start: Seq<Real>,
    pub end: Seq<Real>,
    pub style: Seq<char>,
    pub colors: Seq<ColorStop>,
}

/// How a shape is painted.
pub struct AttributesView {
    pub gradient: Option<GradientView>,
    pub fill_color: Option<Color>,
}

/// What a shape is.
pub enum ShapeView {
    Path { closed: bool, nodes: Seq<Node>, attributes: AttributesView },
    Component {
        name: Seq<char>,
        transform: [Real; 6],
        anchor: Option<String>,
        attributes: AttributesView,
    },
}

/// What a layer is.
pub struct LayerView {
    pub layer_id: Seq<char>,
    pub associated_master_id: Option<Seq<char>>,
    pub shapes: Seq<ShapeView>,
    pub attributes: LayerAttributes,
    pub is_color: bool,
    pub rest: usize,
}

/// What a glyph is.
pub struct GlyphView {
    pub name: Seq<char>,
    pub production_name: Option<Seq<char>>,
    pub export: bool,
    pub layers: Seq<LayerView>,
}

pub open spec fn text_view(s: Option<String>) -> Option<Seq<char>> {
    match s {
        Some(s) => Some(s@),
        None => None,
    }
}

impl View for Gradient {
    type V = GradientView;

    open spec fn view(&self) -> GradientView {
        GradientView {
            start: self.start@,
            end: self.end@,
            style: self.style@,
            colors: self.colors@,
        }
    }
}

impl View for ShapeAttributes {
    type V = AttributesView;

    open spec fn view(&self) -> AttributesView {
        AttributesView {
            gradient: match self.gradient {
                Some(gradient) => Some(gradient@),
                None => None,
            },
            fill_color: self.fill_color,
        }
    }
}

impl View for Shape {
    type V = ShapeView;

    open spec fn view(&self) -> ShapeView {
        match *self {
            Shape::Path(path) => ShapeView::Path {
                closed: path.closed,
                nodes: path.nodes@,
                attributes: path.attributes@,
            },
            Shape::Component(component) => ShapeView::Component {
                name: component.name@,
                transform: component.transform,
                anchor: component.anchor,
                attributes: component.attributes@,
            },
        }
    }
}

/// What some shapes are.
pub open spec fn shape_views(shapes: Seq<Shape>) -> Seq<ShapeView> {
    shapes.map_values(|s: Shape| s@)
}

impl View for Layer {
    type V = LayerView;

    open spec fn view(&self) -> LayerView {
        LayerView {
            layer_id: self.layer_id@,
            associated_master_id: text_view(self.associated_master_id),
            shapes: shape_views(self.shapes@),
            attributes: self.attributes,
            is_color: self.is_color,
            rest: self.rest,
        }
    }
}

/// What some layers are.
pub open spec fn layer_views(layers: Seq<Layer>) -> Seq<LayerView> {
    layers.map_values(|l: Layer| l@)
}

impl View for Glyph {
    type V = GlyphView;

    open spec fn view(&self) -> GlyphView {
        GlyphView {
            name: self.name@,
            production_name: text_view(self.production_name),
            export: self.export,
            layers: layer_views(self.layers@),
        }
    }
}

/// What some glyphs are.
pub open spec fn glyph_views(glyphs: Seq<Glyph>) -> Seq<GlyphView> {
    glyphs.map_values(|g: Glyph| g@)
}

impl Clone for Gradient {
    fn clone(&self) -> (r: Gradient)
        ensures
            r@ == self@,
    {
        Gradient {
            start: lookup::copied(&self.start),
            end: lookup::copied(&self.end),
            style: self.style.clone(),
            colors: lookup::copied(&self.colors),
        }
    }
}

impl Clone for ShapeAttributes {
    fn clone(&self) -> (r: ShapeAttributes)
        ensures
            r@ == self@,
    {
        ShapeAttributes {
            gradient: match &self.gradient {
                Some(gradient) => Some(gradient.clone()),
                None => None,
            },
            fill_color: self.fill_color,
        }
    }
}

pub(crate) fn copy_text(s: &Option<String>) -> (r: Option<String>)
    ensures
        r == *s,
{
    match s {
        Some(s) => Some(s.clone()),
        None => None,
    }
}

impl Clone for Shape {
    fn clone(&self) -> (r: Shape)
        ensures
            r@ == self@,
    {
        match self {
            Shape::Path(path) => Shape::Path(
                Path {
                    closed: path.closed,
                    nodes: lookup::copied(&path.nodes),
                    attributes: path.attributes.clone(),
                },
            ),
            Shape::Component(component) => Shape::Component(
                Component {
                    name: component.name.clone(),
                    transform: component.transform,
                    anchor: copy_text(&component.anchor),
                    attributes: component.attributes.clone(),
                },
            ),
        }
    }
}

impl Shape {
    pub open spec fn paint(&self) -> AttributesView {
        match *self {
            Shape::Path(path) => path.attributes@,
            Shape::Component(component) => component.attributes@,
        }
    }

    /// How the shape is painted.
    pub fn attributes(&self) -> (r: &ShapeAttributes)
        ensures
            r@ == self.paint(),
    {
        match self {
            Shape::Path(path) => &path.attributes,
            Shape::Component(component) => &component.attributes,
        }
    }
}

/// A copy of the shapes from one index to another.
pub(crate) fn shapes_between(shapes: &Vec<Shape>, from: usize, to: usize) -> (r: Vec<Shape>)
    requires
        from <= to <= shapes@.len(),
    ensures
        shape_views(r@) == shape_views(shapes@).subrange(from as int, to as int),
{
    let ghost all = shape_views(shapes@).subrange(from as int, to as int);
    let mut r: Vec<Shape> = Vec::new();
    let mut i: usize = from;
    while i < to
        invariant
            from <= i <= to <= shapes@.len(),
            all == shape_views(shapes@).subrange(from as int, to as int),
            shape_views(r@) =~= all.take(i - from),
        decreases to - i,
    {
        let ghost before = r@;
        r.push(shapes[i].clone());
        assert(shape_views(r@) =~= shape_views(before).push(shapes@[i as int]@));
        i = i + 1;
    }
    assert(shape_views(r@) =~= all);
    r
}

impl Layer {
    /// The master this layer belongs to: the one it is associated with, else
    /// the one it is.
    pub open spec fn master(&self) -> Seq<char> {
        match self.associated_master_id {
            Some(id) => id@,
            None => self.layer_id@,
        }
    }

    pub fn master_id(&self) -> (r: &String)
        ensures
            r@ == self.master(),
    {
        match &self.associated_master_id {
            Some(id) => id,
            None => &self.layer_id,
        }
    }
}

/// An axis of a source.
#[derive(Debug, PartialEq, Eq)]
pub struct Axis {
    pub name: String,
    pub tag: String,
    pub hidden: Option<bool>,
}

/// What an axis of a source is.
pub struct AxisView {
    pub name: Seq<char>,
    pub tag: Seq<char>,
    pub hidden: Option<bool>,
}

impl View for Axis {
    type V = AxisView;

    open spec fn view(&self) -> AxisView {
        AxisView { name: self.name@, tag: self.tag@, hidden: self.hidden }
    }
}

impl Clone for Axis {
    fn clone(&self) -> (r: Axis)
        ensures
            r@ == self@,
    {
        Axis { name: self.name.clone(), tag: self.tag.clone(), hidden: self.hidden }
    }
}

/// What the axes of a source are.
pub open spec fn axis_views(axes: Seq<Axis>) -> Seq<AxisView> {
    axes.map_values(|axis: Axis| axis@)
}

/// A master of a source.
#[derive(Debug, Clone, PartialEq, Eq)]
pub struct FontMaster {
    pub id: String,
    pub name: String,
    /// The position on each axis of the source, in design space.
    pub axes_values: Vec<Real>,
}

/// What an instance describes.
#[derive(Debug, Clone, Copy, PartialEq, Eq, Structural)]
pub enum InstanceType {
    /// A point of a variable font.
    Single,
    /// A whole variable font.
    Variable,
}

/// An instance of a source.
#[derive(Debug, Clone, PartialEq, Eq)]
pub struct Instance {
    pub name: String,
    pub type_: InstanceType,
    /// The position on each axis of the source, in design space.
    pub axes_values: Vec<Real>,
}

/// A source.
#[derive(Debug, PartialEq, Eq)]
pub struct Font {
    pub axes: Vec<Axis>,
    /// Pairs of a user and a design position, by axis name.
    pub axis_mappings: Vec<(String, Vec<(Real, Real)>)>,
    pub masters: Vec<FontMaster>,
    pub default_master_idx: usize,
    /// Positions on axes, by name, that widen them without a master there.
    pub virtual_masters: Vec<Vec<(String, Real)>>,
    pub instances: Vec<Instance>,
    pub glyphs: Vec<Glyph>,
    pub glyph_order: Vec<String>,
    /// Whether the source names its axes itself.
    pub declares_axes: bool,
}

/// A layer belongs to the master that it names, or is one if it names none.
pub proof fn law_layers_belong_to_the_master_they_name(layer: Layer)
    ensures
        layer.associated_master_id is None ==> layer.master() == layer.layer_id@,
        layer.associated_master_id matches Some(id) ==> layer.master() == id@,
{
}

/// Shapes that look the same are of one kind and agree on everything: paths on
/// whether they are closed and on their nodes, components on what they draw,
/// how and where, and both on how they are painted.
pub proof fn law_shapes_that_look_the_same_agree_on_everything(a: Shape, b: Shape)
    requires
        a@ == b@,
    ensures
        a is Path <==> b is Path,
        a is Component <==> b is Component,
        a.paint() == b.paint(),
        a matches Shape::Path(one) ==> (b matches Shape::Path(other) && one.closed == other.closed
            && one.nodes@ == other.nodes@),
        a matches Shape::Component(one) ==> (b matches Shape::Component(other) && one.name@
            == other.name@ && one.transform == other.transform && one.anchor == other.anchor),
{
}

/// What is painted the same has the same fill, and gradients with the same
/// places, stops and style or none.
pub proof fn law_paints_that_look_the_same_agree_on_everything(
    a: ShapeAttributes,
    b: ShapeAttributes,
)
    requires
        a@ == b@,
    ensures
        a.fill_color == b.fill_color,
        a.gradient is Some <==> b.gradient is Some,
        a.gradient matches Some(one) ==> one.start@ == b.gradient->0.start@ && one.end@
            == b.gradient->0.end@ && one.style@ == b.gradient->0.style@ && one.colors@
            == b.gradient->0.colors@,
{
}

/// A shape is painted as its path or its component says.
pub proof fn law_shapes_are_painted_by_their_attributes(path: Path, component: Component)
    ensures
        Shape::Path(path).paint() == path.attributes@,
        Shape::Component(component).paint() == component.attributes@,
{
}

/// Glyphs that look the same have the same names, are exported or aren't, and
/// have the same layers in the same order.
pub proof fn law_glyphs_that_look_the_same_agree_on_everything(a: Glyph, b: Glyph, i: int)
    requires
        a@ == b@,
        0 <= i < a.layers@.len(),
    ensures
        a.name@ == b.name@,
        a.export == b.export,
        a.production_name is Some <==> b.production_name is Some,
        a.production_name matches Some(name) ==> name@ == b.production_name->0@,
        a.layers@.len() == b.layers@.len(),
        a.layers@[i]@ == b.layers@[i]@,
{
    assert(layer_views(a.layers@) == layer_views(b.layers@));
    assert(layer_views(a.layers@).len() == a.layers@.len());
    assert(layer_views(b.layers@).len() == b.layers@.len());
    assert(layer_views(a.layers@)[i] == a.layers@[i]@);
    assert(layer_views(b.layers@)[i] == b.layers@[i]@);
}

/// Layers that look the same have the same ids, attributes and shapes.
pub proof fn law_layers_that_look_the_same_agree_on_everything(a: Layer, b: Layer, i: int)
    requires
        a@ == b@,
        0 <= i < a.shapes@.len(),
    ensures
        a.layer_id@ == b.layer_id@,
        a.associated_master_id is Some <==> b.associated_master_id is Some,
        a.associated_master_id matches Some(id) ==> id@ == b.associated_master_id->0@,
        a.attributes == b.attributes,
        a.is_color == b.is_color,
        a.rest == b.rest,
        a.shapes@.len() == b.shapes@.len(),
        a.shapes@[i]@ == b.shapes@[i]@,
{
    assert(shape_views(a.shapes@) == shape_views(b.shapes@));
    assert(shape_views(a.shapes@).len() == a.shapes@.len());
    assert(shape_views(b.shapes@).len() == b.shapes@.len());
    assert(shape_views(a.shapes@)[i] == a.shapes@[i]@);
    assert(shape_views(b.shapes@)[i] == b.shapes@[i]@);
}

/// Axes that look the same have the same name and tag, and are hidden or aren't.
pub proof fn law_axes_that_look_the_same_agree_on_everything(a: Axis, b: Axis)
    requires
        a@ == b@,
    ensures
        a.name@ == b.name@,
        a.tag@ == b.tag@,
        a.hidden == b.hidden,
{
}

} // verus!
