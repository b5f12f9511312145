//! The paint of a layer or of a shape.

use crate::coords::Real;
use crate::glyphs_source;
use crate::glyphs_source::{Gradient, Layer, LayerAttributes, ShapeAttributes};
use crate::numeric;
use crate::text;
use vstd::prelude::*;
use vstd::string::*;

verus! {

/// A color, one byte a channel.
#[derive(Debug, Clone, Copy, PartialEq, Eq, Structural)]
pub struct Color {
    pub r: u8,
    pub g: u8,
    pub b: u8,
    pub a: u8,
}

/// A color at a position of a gradient.
#[derive(Debug, Clone, Copy, PartialEq, Eq, Structural)]
pub struct ColorStop {
    pub offset: Real,
    pub color: Color,
    pub alpha: Real,
}

/// What something is filled with.
#[derive(Debug, PartialEq, Eq)]
pub enum Paint {
    /// One color, the foreground's if none is given.
    Solid { color: Option<Color> },
    LinearGradient {
        p0: (Real, Real),
        p1: (Real, Real),
        /// Worked out once positions are absolute.
        p2: Option<(Real, Real)>,
        color_line: Vec<ColorStop>,
    },
    RadialGradient {
        p0: (Real, Real),
        p1: (Real, Real),
        /// Nothing is zero.
        r0: Option<Real>,
        /// Worked out once positions are absolute.
        r1: Option<Real>,
        color_line: Vec<ColorStop>,
    },
}

/// Why there is no paint.
#[derive(Debug, PartialEq, Eq)]
pub enum PaintProblem {
    /// A palette is used but there isn't one.
    NoPalette,
    /// The palette has no color with this index.
    OutOfBounds(i64),
    /// A gradient is neither linear nor a circle.
    UnrecognizedGradient(String),
    /// Neither the layer nor the shape says anything.
    NoPaint {
        attributes: LayerAttributes,
        /// Which layer of the source has the rest of its attributes.
        rest: usize,
        shape: ShapeAttributes,
    },
}

/// A glyph that cannot be painted, and why.
#[derive(Debug, PartialEq, Eq)]
pub struct BadPaint {
    pub glyph: String,
    pub problem: PaintProblem,
}

/// The palette index that means the color of the text.
pub const FOREGROUND: i64 = 0xFFFF;

/// 255, by rank.
pub const OPAQUE: Real = 0x406FE00000000000;

/// A color with each channel cut down to a byte.
pub open spec fn narrowed(color: glyphs_source::Color) -> Color {
    Color { r: color.r as u8, g: color.g as u8, b: color.b as u8, a: color.a as u8 }
}

/// A color with each channel cut down to a byte.
pub fn to_ir_color(color: glyphs_source::Color) -> (r: Color)
    ensures
        r == narrowed(color),
{
    Color {
        r: #[verifier::truncate] (color.r as u8),
        g: #[verifier::truncate] (color.g as u8),
        b: #[verifier::truncate] (color.b as u8),
        a: #[verifier::truncate] (color.a as u8),
    }
}

/// The color stops of a gradient.
pub open spec fn narrowed_stops<F: Fn(Real) -> Real>(
    single: F,
    stops: Seq<glyphs_source::ColorStop>,
) -> Seq<ColorStop> {
    stops.map_values(
        |s: glyphs_source::ColorStop|
            ColorStop {
                offset: numeric::image(single, s.stop_offset),
                color: narrowed(s.color),
                alpha: OPAQUE,
            },
    )
}

/// The color stops of a gradient. `single` rounds to single precision.
pub fn to_ir_color_stops<F: Fn(Real) -> Real>(
    stops: &Vec<glyphs_source::ColorStop>,
    single: &F,
) -> (r: Vec<ColorStop>)
    requires
        numeric::is_map(*single),
    ensures
        r@ == narrowed_stops(*single, stops@),
{
    let mut r: Vec<ColorStop> = Vec::new();
    let mut i: usize = 0;
    while i < stops.len()
        invariant
            i <= stops@.len(),
            numeric::is_map(*single),
            r@ =~= narrowed_stops(*single, stops@).take(i as int),
        decreases stops.len() - i,
    {
        r.push(
            ColorStop {
                offset: numeric::apply(single, stops[i].stop_offset),
                color: to_ir_color(stops[i].color),
                alpha: OPAQUE,
            },
        );
        i = i + 1;
    }
    assert(r@ =~= narrowed_stops(*single, stops@));
    r
}

/// What a gradient becomes.
///
/// A circle is centered at the start; its radius is worked out later.
pub open spec fn is_gradient_paint<F: Fn(Real) -> Real>(
    single: F,
    gradient: Gradient,
    r: Result<Paint, PaintProblem>,
) -> bool {
    let start = (gradient.start@[0], gradient.start@[1]);
    let end = (gradient.end@[0], gradient.end@[1]);
    if gradient.style@ == "circle"@ {
        r matches Ok(Paint::RadialGradient { p0, p1, r0, r1, color_line }) && p0 == start && p1
            == start && r0 is None && r1 is None && color_line@ == narrowed_stops(
            single,
            gradient.colors@,
        )
    } else if gradient.style@ == ""@ {
        r matches Ok(Paint::LinearGradient { p0, p1, p2, color_line }) && p0 == start && p1 == end
            && p2 is None && color_line@ == narrowed_stops(single, gradient.colors@)
    } else {
        r matches Err(PaintProblem::UnrecognizedGradient(style)) && style@ == gradient.style@
    }
}

/// What a shape is painted with, if the layer has no palette index.
pub open spec fn is_shape_paint<F: Fn(Real) -> Real>(
    single: F,
    layer: Layer,
    attr: ShapeAttributes,
    r: Result<Paint, PaintProblem>,
) -> bool {
    match attr.fill_color {
        Some(fill) => r == Ok::<Paint, PaintProblem>(Paint::Solid { color: Some(narrowed(fill)) }),
        None => match attr.gradient {
            Some(gradient) => is_gradient_paint(single, gradient, r),
            None => r matches Err(PaintProblem::NoPaint { attributes, rest, shape })
                && attributes == layer.attributes && rest == layer.rest && shape@ == attr@,
        },
    }
}

/// The paint with a palette index.
pub open spec fn palette_paint(
    palette: Option<Seq<glyphs_source::Color>>,
    idx: i64,
) -> Result<Paint, PaintProblem> {
    if idx == FOREGROUND {
        Ok(Paint::Solid { color: None })
    } else {
        match palette {
            None => Err(PaintProblem::NoPalette),
            Some(palette) => if 0 <= idx < palette.len() {
                Ok(Paint::Solid { color: Some(narrowed(palette[idx as int])) })
            } else {
                Err(PaintProblem::OutOfBounds(idx))
            },
        }
    }
}

/// What something is painted with: the layer's palette index comes first, then
/// the shape's fill, then its gradient.
pub open spec fn is_paint<F: Fn(Real) -> Real>(
    single: F,
    palette: Option<Seq<glyphs_source::Color>>,
    layer: Layer,
    attr: ShapeAttributes,
    r: Result<Paint, PaintProblem>,
) -> bool {
    match layer.attributes.color_palette {
        Some(idx) => r == palette_paint(palette, idx),
        None => is_shape_paint(single, layer, attr, r),
    }
}

/// Whether a gradient says where it starts and where it ends.
pub open spec fn is_placed(gradient: Gradient) -> bool {
    gradient.start@.len() >= 2 && gradient.end@.len() >= 2
}

fn paint_gradient<F: Fn(Real) -> Real>(gradient: &Gradient, single: &F) -> (r: Result<
    Paint,
    PaintProblem,
>)
    requires
        numeric::is_map(*single),
        is_placed(*gradient),
    ensures
        is_gradient_paint(*single, *gradient, r),
{
    let start: (Real, Real) = (gradient.start[0], gradient.start[1]);
    let end: (Real, Real) = (gradient.end[0], gradient.end[1]);
    if text::same(gradient.style.as_str(), "circle") {
        Ok(
            Paint::RadialGradient {
                p0: start,
                p1: start,
                r0: None,
                r1: None,
                color_line: to_ir_color_stops(&gradient.colors, single),
            },
        )
    } else if text::same(gradient.style.as_str(), "") {
        Ok(
            Paint::LinearGradient {
                p0: start,
                p1: end,
                p2: None,
                color_line: to_ir_color_stops(&gradient.colors, single),
            },
        )
    } else {
        Err(PaintProblem::UnrecognizedGradient(gradient.style.clone()))
    }
}

fn find_paint<F: Fn(Real) -> Real>(
    palette: Option<&Vec<glyphs_source::Color>>,
    layer: &Layer,
    attr: &ShapeAttributes,
    single: &F,
) -> (r: Result<Paint, PaintProblem>)
    requires
        numeric::is_map(*single),
        needs_gradient(*layer, *attr) ==> is_placed(attr.gradient->0),
    ensures
        is_paint(
            *single,
            match palette {
                Some(palette) => Some(palette@),
                None => None,
            },
            *layer,
            *attr,
            r,
        ),
{
    if let Some(idx) = layer.attributes.color_palette {
        if idx == FOREGROUND {
            return Ok(Paint::Solid { color: None });
        }
        return match palette {
            None => Err(PaintProblem::NoPalette),
            Some(palette) => {
                if 0 <= idx && (idx as u64) < palette.len() as u64 {
                    Ok(Paint::Solid { color: Some(to_ir_color(palette[idx as usize])) })
                } else {
                    Err(PaintProblem::OutOfBounds(idx))
                }
            },
        };
    }
    if let Some(fill) = attr.fill_color {
        return Ok(Paint::Solid { color: Some(to_ir_color(fill)) });
    }
    match &attr.gradient {
        Some(gradient) => paint_gradient(gradient, single),
        None => Err(
            PaintProblem::NoPaint {
                attributes: layer.attributes,
                rest: layer.rest,
                shape: attr.clone(),
            },
        ),
    }
}

/// Whether it comes to a shape's gradient.
pub open spec fn needs_gradient(layer: Layer, attr: ShapeAttributes) -> bool {
    layer.attributes.color_palette is None && attr.fill_color is None && attr.gradient is Some
}

/// What a shape of a layer is painted with.
///
/// Positions of a gradient are fractions of the bounding box, and stay so:
/// they are scaled once boxes are known. `single` rounds to single precision.
pub fn to_ir_paint<F: Fn(Real) -> Real>(
    palette: Option<&Vec<glyphs_source::Color>>,
    glyph_name: &String,
    layer: &Layer,
    attr: &ShapeAttributes,
    single: &F,
) -> (r: Result<Paint, BadPaint>)
    requires
        numeric::is_map(*single),
        needs_gradient(*layer, *attr) ==> is_placed(attr.gradient->0),
    ensures
        r matches Err(bad) ==> bad.glyph@ == glyph_name@,
        is_paint(
            *single,
            match palette {
                Some(palette) => Some(palette@),
                None => None,
            },
            *layer,
            *attr,
            match r {
                Ok(paint) => Ok(paint),
                Err(bad) => Err(bad.problem),
            },
        ),
{
    match find_paint(palette, layer, attr, single) {
        Ok(paint) => Ok(paint),
        Err(problem) => Err(BadPaint { glyph: glyph_name.clone(), problem }),
    }
}

/// The palette index for the foreground needs no palette.
pub proof fn law_foreground_needs_no_palette(palette: Option<Seq<glyphs_source::Color>>)
    ensures
        palette_paint(palette, FOREGROUND) == Ok::<Paint, PaintProblem>(
            Paint::Solid { color: None },
        ),
{
}

/// Colors keep their channels, each its own, as far as they fit in a byte; of a
/// channel that does not fit, the low byte is kept.
pub proof fn law_channels_keep_their_places(color: glyphs_source::Color)
    ensures
        narrowed(color).r == color.r & 0xFF,
        narrowed(color).g == color.g & 0xFF,
        narrowed(color).b == color.b & 0xFF,
        narrowed(color).a == color.a & 0xFF,
        0 <= color.r <= 255 ==> narrowed(color).r == color.r,
        0 <= color.g <= 255 ==> narrowed(color).g == color.g,
        0 <= color.b <= 255 ==> narrowed(color).b == color.b,
        0 <= color.a <= 255 ==> narrowed(color).a == color.a,
{
    lemma_low_byte(color.r);
    lemma_low_byte(color.g);
    lemma_low_byte(color.b);
    lemma_low_byte(color.a);
}

proof fn lemma_low_byte(x: i64)
    ensures
        x as u8 == x & 0xFF,
{
    assert(x as u8 == x & 0xFF) by (bit_vector);
}

/// Color stops stay in order, each where it was, in its color and opaque.
pub proof fn law_color_stops_stay_in_order<F: Fn(Real) -> Real>(
    single: F,
    stops: Seq<glyphs_source::ColorStop>,
    i: int,
)
    requires
        0 <= i < stops.len(),
    ensures
        narrowed_stops(single, stops).len() == stops.len(),
        narrowed_stops(single, stops)[i].offset == numeric::image(single, stops[i].stop_offset),
        narrowed_stops(single, stops)[i].color == narrowed(stops[i].color),
        narrowed_stops(single, stops)[i].alpha == 0x406FE00000000000,
{
}

/// The palette comes before the fill of a shape, and its fill before its
/// gradient.
pub proof fn law_the_palette_comes_before_the_fill<F: Fn(Real) -> Real>(
    single: F,
    palette: Seq<glyphs_source::Color>,
    layer: Layer,
    attr: ShapeAttributes,
    r: Result<Paint, PaintProblem>,
)
    requires
        is_paint(single, Some(palette), layer, attr, r),
    ensures
        layer.attributes.color_palette == Some(0xFFFFi64) ==> r == Ok::<Paint, PaintProblem>(
            Paint::Solid { color: None },
        ),
        layer.attributes.color_palette matches Some(idx) && 0 <= idx < palette.len() && idx
            < 0xFFFF ==> r == Ok::<Paint, PaintProblem>(
            Paint::Solid { color: Some(narrowed(palette[layer.attributes.color_palette->0 as int])) },
        ),
        layer.attributes.color_palette matches Some(idx) && idx != 0xFFFF && (idx < 0
            || palette.len() <= idx) ==> r == Err::<Paint, PaintProblem>(
            PaintProblem::OutOfBounds(layer.attributes.color_palette->0),
        ),
        layer.attributes.color_palette is None && attr.fill_color is Some ==> r == Ok::<
            Paint,
            PaintProblem,
        >(Paint::Solid { color: Some(narrowed(attr.fill_color->0)) }),
{
}

/// Without a palette, only the foreground can be had by an index.
pub proof fn law_indices_need_a_palette<F: Fn(Real) -> Real>(
    single: F,
    layer: Layer,
    attr: ShapeAttributes,
    r: Result<Paint, PaintProblem>,
)
    requires
        is_paint(single, None, layer, attr, r),
        layer.attributes.color_palette matches Some(idx) && idx != 0xFFFF,
    ensures
        r == Err::<Paint, PaintProblem>(PaintProblem::NoPalette),
{
}

/// A gradient that is a circle has its start for both of its centers, one with
/// no style runs from its start to its end, and any other style is unknown.
pub proof fn law_gradients_go_by_their_style<F: Fn(Real) -> Real>(
    single: F,
    palette: Option<Seq<glyphs_source::Color>>,
    layer: Layer,
    attr: ShapeAttributes,
    r: Result<Paint, PaintProblem>,
)
    requires
        is_paint(single, palette, layer, attr, r),
        layer.attributes.color_palette is None,
        attr.fill_color is None,
    ensures
        attr.gradient matches Some(gradient) && gradient.style@ == "circle"@ ==> (r matches Ok(
            Paint::RadialGradient { p0, p1, r0, r1, color_line },
        ) && p0.0 == attr.gradient->0.start@[0] && p0.1 == attr.gradient->0.start@[1] && p1 == p0
            && r0 is None && r1 is None && color_line@.len() == attr.gradient->0.colors@.len()
            && forall|i: int|
            0 <= i < color_line@.len() ==> (#[trigger] color_line@[i]).color == narrowed(
                attr.gradient->0.colors@[i].color,
            )),
        attr.gradient matches Some(gradient) && gradient.style@.len() == 0 ==> (r matches Ok(
            Paint::LinearGradient { p0, p1, p2, color_line },
        ) && p0.0 == attr.gradient->0.start@[0] && p0.1 == attr.gradient->0.start@[1] && p1.0
            == attr.gradient->0.end@[0] && p1.1 == attr.gradient->0.end@[1] && p2 is None
            && color_line@.len() == attr.gradient->0.colors@.len() && forall|i: int|
            0 <= i < color_line@.len() ==> (#[trigger] color_line@[i]).color == narrowed(
                attr.gradient->0.colors@[i].color,
            )),
        attr.gradient matches Some(gradient) && gradient.style@.len() > 0 && gradient.style@
            != "circle"@ ==> (r matches Err(PaintProblem::UnrecognizedGradient(style)) && style@
            == attr.gradient->0.style@),
        attr.gradient is None ==> r is Err && r->Err_0 is NoPaint,
{
    reveal_strlit("");
    reveal_strlit("circle");
    if let Some(gradient) = attr.gradient {
        if gradient.style@.len() == 0 {
            assert(gradient.style@ =~= ""@);
        }
    }
}

} // verus!
