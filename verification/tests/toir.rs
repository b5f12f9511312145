//! From a Glyphs source to what a font is built from.

use fontc::cff::{PathEl, PathPoint};
use fontc::color_glyphs::{can_split_glyphs, split_color_glyphs, split_colrv1_glyph};
use fontc::coords::{self, CoordConverter, Location, Real, Tag};
use fontc::font_info::{reach_sources, FontInfo};
use fontc::glyphs_source::{
    Axis, Color, ColorStop, Component, Font, FontMaster, Glyph, Gradient, Instance, InstanceType,
    Layer, LayerAttributes, Node, NodeType, Path, Shape, ShapeAttributes,
};
use fontc::paint::{self, to_ir_color, to_ir_paint, Paint, PaintProblem};
use fontc::source_axes::{
    default_user_loc, ir_axes, to_ir_axis, to_user_coord, wanted_in_designspace, AxisError,
};
use fontc::toir::{
    design_location, path_commands, source_design_location, to_ir_contours_and_components,
    to_ir_features, to_ir_path, FeatureSnippet, PathCommand,
};

const WGHT: Tag = Tag(0x77676874);
const WDTH: Tag = Tag(0x77647468);

/// The rank of a number among all doubles.
fn rank(x: f64) -> Real {
    let magnitude = (x.to_bits() & !(1 << 63)) as i64;
    if x.is_sign_negative() {
        -magnitude
    } else {
        magnitude
    }
}

fn unrank(r: Real) -> f64 {
    let magnitude = f64::from_bits(r.unsigned_abs());
    if r < 0 {
        -magnitude
    } else {
        magnitude
    }
}

fn ranks(values: &[f64]) -> Vec<Real> {
    values.iter().copied().map(rank).collect()
}

fn pairs(values: &[(f64, f64)]) -> Vec<(Real, Real)> {
    values.iter().map(|(a, b)| (rank(*a), rank(*b))).collect()
}

fn text(s: &str) -> String {
    s.to_string()
}

// ---- paths ----

fn node(x: f64, y: f64, node_type: NodeType) -> Node {
    Node {
        x: rank(x),
        y: rank(y),
        node_type,
    }
}

fn point((x, y): (f64, f64)) -> PathPoint {
    PathPoint {
        x: rank(x),
        y: rank(y),
        rounded_x: (x + 0.5).floor() as i32,
        rounded_y: (y + 0.5).floor() as i32,
    }
}

/// A contour of cubic and quadratic curves. One that does not begin with a move
/// is closed, and begins where its first command leads, or between its last and
/// first points if those are all off the curve.
fn build(commands: &Vec<PathCommand>, _: bool) -> Result<Vec<PathEl>, String> {
    let at = |x: &Real, y: &Real| (unrank(*x), unrank(*y));
    let half = |a: (f64, f64), b: (f64, f64)| ((a.0 + b.0) / 2.0, (a.1 + b.1) / 2.0);
    let mut rest = commands.clone();
    let mut closed = true;
    let start = match &commands[0] {
        PathCommand::Move(x, y) => {
            closed = false;
            rest.remove(0);
            at(x, y)
        }
        PathCommand::OffCurve(x, y) => {
            let Some(PathCommand::OffCurve(u, v)) = commands.last() else {
                return Err("a contour of both kinds".to_string());
            };
            let start = half(at(u, v), at(x, y));
            rest.push(PathCommand::QCurve(rank(start.0), rank(start.1)));
            start
        }
        PathCommand::Line(x, y) | PathCommand::Curve(x, y) | PathCommand::QCurve(x, y) => {
            let first = rest.remove(0);
            rest.push(first);
            at(x, y)
        }
    };
    let mut path = vec![PathEl::MoveTo(point(start))];
    let mut off: Vec<(f64, f64)> = Vec::new();
    for command in &rest {
        match command {
            PathCommand::OffCurve(x, y) => off.push(at(x, y)),
            PathCommand::Move(..) => return Err("a second move".to_string()),
            PathCommand::Line(x, y) => path.push(PathEl::LineTo(point(at(x, y)))),
            PathCommand::Curve(x, y) => {
                let &[a, b] = &off[..] else {
                    return Err("not a cubic".to_string());
                };
                path.push(PathEl::CurveTo(point(a), point(b), point(at(x, y))));
                off.clear();
            }
            PathCommand::QCurve(x, y) => {
                for pair in off.windows(2) {
                    path.push(PathEl::QuadTo(point(pair[0]), point(half(pair[0], pair[1]))));
                }
                let last = *off.last().ok_or("nothing off the curve")?;
                path.push(PathEl::QuadTo(point(last), point(at(x, y))));
                off.clear();
            }
        }
    }
    if closed {
        path.push(PathEl::ClosePath);
    }
    Ok(path)
}

#[test]
fn the_last_of_a_closed_contour_is_first() {
    // If a contour starts with off-curve points that means start at the *last* point
    let path = Path {
        closed: true,
        // A sort of teardrop thing drawn with a single cubic: Offcurve, Offcurve,
        // Oncurve should be taken to start and end at the closing Oncurve.
        nodes: vec![
            node(64.0, 64.0, NodeType::OffCurve),
            node(64.0, 0.0, NodeType::OffCurve),
            node(32.0, 32.0, NodeType::Curve),
        ],
        ..Default::default()
    };
    assert_eq!(
        to_ir_path(&path, false, &build).unwrap(),
        vec![
            PathEl::MoveTo(point((32.0, 32.0))),
            PathEl::CurveTo(
                point((64.0, 64.0)),
                point((64.0, 0.0)),
                point((32.0, 32.0))
            ),
            PathEl::ClosePath,
        ]
    );
}

/// A closed contour of nothing but off-curve points starts at the midpoint of
/// the last and first off-curves — *after* the last node moved to the front.
#[test]
fn no_on_curve_path_order() {
    let nodes = [(10., 0.), (10., 10.), (0., 10.), (0., 0.)]
        .into_iter()
        .map(|(x, y)| node(x, y, NodeType::OffCurve))
        .collect();
    let path = Path {
        closed: true,
        nodes,
        ..Default::default()
    };

    let bez = to_ir_path(&path, false, &build).unwrap();
    assert_eq!(bez.first(), Some(&PathEl::MoveTo(point((0., 5.)))));
}

#[test]
fn open_paths_start_where_they_start() {
    let mut path = Path {
        closed: false,
        nodes: vec![
            node(0.0, 0.0, NodeType::Line),
            node(5.0, 0.0, NodeType::LineSmooth),
            node(5.0, 5.0, NodeType::OffCurve),
            node(0.0, 5.0, NodeType::QCurveSmooth),
        ],
        ..Default::default()
    };
    assert_eq!(
        path_commands(&path).unwrap(),
        vec![
            PathCommand::Move(rank(0.0), rank(0.0)),
            PathCommand::Line(rank(5.0), rank(0.0)),
            PathCommand::OffCurve(rank(5.0), rank(5.0)),
            PathCommand::QCurve(rank(0.0), rank(5.0)),
        ]
    );
    path.nodes[0].node_type = NodeType::OffCurve;
    assert_eq!(
        to_ir_path(&path, false, &build).unwrap_err(),
        "Open path starts with off-curve points"
    );
    path.nodes.clear();
    assert_eq!(to_ir_path(&path, false, &build).unwrap(), Vec::new());
}

fn square(fill_color: Option<Color>) -> Shape {
    let corner = |x, y| node(x, y, NodeType::Line);
    Shape::Path(Path {
        closed: true,
        nodes: vec![corner(0.0, 0.0), corner(9.0, 0.0), corner(9.0, 9.0)],
        attributes: ShapeAttributes {
            fill_color,
            gradient: None,
        },
    })
}

#[test]
fn shapes_are_contours_or_components() {
    let component = |name: &str| {
        Shape::Component(Component {
            name: text(name),
            transform: [rank(1.0); 6],
            anchor: Some(text("top")),
            attributes: ShapeAttributes::default(),
        })
    };
    let shapes = vec![component("a"), square(None), component("b")];
    let name = text("c");
    let (contours, components) =
        to_ir_contours_and_components(&name, &shapes, false, &build).unwrap();
    assert_eq!(contours.len(), 1);
    assert_eq!(contours[0][0], PathEl::MoveTo(point((9.0, 9.0))));
    let bases: Vec<_> = components.iter().map(|c| c.base.as_str()).collect();
    assert_eq!(bases, ["a", "b"]);
    assert_eq!(components[0].anchor.as_deref(), Some("top"));

    let refuse = |_: &Vec<PathCommand>, _: bool| Err(text("cannot draw"));
    let e = to_ir_contours_and_components(&name, &shapes, false, &refuse).unwrap_err();
    assert_eq!((e.name.as_str(), e.cause.as_str()), ("c", "cannot draw"));
}

#[test]
fn disabled_features_are_left_out() {
    let snippet = |content: &str, disabled| FeatureSnippet {
        content: text(content),
        disabled,
    };
    let features = vec![snippet("a", false), snippet("b", true), snippet("c", false)];
    assert_eq!(to_ir_features(&features), "a\n\nc");
    assert_eq!(to_ir_features(&Vec::new()), "");
}

// ---- color glyphs ----

fn source_axis(name: &str, tag: &str) -> Axis {
    Axis {
        name: text(name),
        tag: text(tag),
        hidden: None,
    }
}

fn master(id: &str, axes_values: &[f64]) -> FontMaster {
    FontMaster {
        id: text(id),
        name: text(id),
        axes_values: ranks(axes_values),
    }
}

fn single(name: &str, axes_values: &[f64]) -> Instance {
    Instance {
        name: text(name),
        type_: InstanceType::Single,
        axes_values: ranks(axes_values),
    }
}

/// One master and no axes.
fn plain_font(glyphs: Vec<Glyph>) -> Font {
    Font {
        axes: Vec::new(),
        axis_mappings: Vec::new(),
        masters: vec![master("m0", &[])],
        default_master_idx: 0,
        virtual_masters: Vec::new(),
        instances: Vec::new(),
        glyph_order: glyphs.iter().map(|g| g.name.clone()).collect(),
        glyphs,
        declares_axes: false,
    }
}

fn own_layer(shapes: Vec<Shape>, color: bool) -> Layer {
    Layer {
        layer_id: text("m0"),
        shapes,
        attributes: LayerAttributes {
            color,
            color_palette: None,
        },
        is_color: color,
        ..Default::default()
    }
}

fn palette_layer(id: &str, shapes: Vec<Shape>, index: i64) -> Layer {
    Layer {
        layer_id: text(id),
        associated_master_id: Some(text("m0")),
        shapes,
        attributes: LayerAttributes {
            color: false,
            color_palette: Some(index),
        },
        is_color: true,
        ..Default::default()
    }
}

fn glyph(name: &str, layers: Vec<Layer>) -> Glyph {
    Glyph {
        name: text(name),
        production_name: None,
        export: true,
        layers,
    }
}

/// Glyphs with empty color palette layers are NOT added to color_glyphs.
///
/// A non-printing glyph like "CR" may nominally contain palette layers that
/// trigger the COLRv0 code path, but none of the layers have shapes.
#[test]
fn colrv0_glyph_with_empty_palette_layers_is_skipped() {
    let mut font = plain_font(vec![glyph(
        "A",
        vec![
            own_layer(vec![square(None)], false),
            palette_layer("p0", vec![square(None)], 0),
        ],
    )]);

    // Add a glyph "CR" with palette layers but no shapes
    let cr_glyph = glyph(
        "CR",
        vec![
            // Default master layer with empty shapes
            own_layer(Vec::new(), false),
            // Palette layer has color_palette but empty shapes
            palette_layer("palette-layer-1", Vec::new(), 0),
        ],
    );
    font.glyphs.push(cr_glyph);
    font.glyph_order.push(text("CR"));

    assert!(can_split_glyphs(&font));
    let (font, color_glyphs) = split_color_glyphs(font);

    // The glyph should NOT be in color_glyphs because it has no color content
    assert!(
        !color_glyphs.contains_key("CR"),
        "Glyph with empty palette layers should not be added to color_glyphs"
    );
    assert_eq!(color_glyphs.get("A"), Some(&vec![text("A.color0")]));
    assert_eq!(font.glyph_order, ["A", "CR", "A.color0"]);
    let made = font.glyphs.iter().find(|g| g.name == "A.color0").unwrap();
    assert_eq!(made.layers.len(), 1);
    // the palette layer became one of the master itself
    assert_eq!(made.layers[0].layer_id, "m0");
    assert_eq!(made.layers[0].associated_master_id, None);
}

/// COLRv1 glyphs with empty color layers are not added to color_glyphs.
#[test]
fn colrv1_glyph_with_empty_color_layer_is_skipped() {
    let red = Color { r: 255, g: 0, b: 0, a: 255 };
    let mut font = plain_font(vec![glyph(
        "A",
        vec![own_layer(vec![square(Some(red))], true)],
    )]);

    // Add a glyph "empty_color" with a color layer but no shapes
    font.glyphs.push(glyph("empty_color", vec![own_layer(Vec::new(), true)]));
    font.glyph_order.push(text("empty_color"));

    let (_, color_glyphs) = split_color_glyphs(font);

    // The glyph should NOT be in color_glyphs because it has no shapes
    assert!(
        !color_glyphs.contains_key("empty_color"),
        "COLRv1 glyph with empty color layer should not be added to color_glyphs"
    );
    // one with a single run is there, with nothing split from it
    assert_eq!(color_glyphs.get("A"), Some(&Vec::new()));
}

#[test]
fn runs_of_one_paint_become_glyphs() {
    let red = Color { r: 255, g: 0, b: 0, a: 255 };
    let blue = Color { r: 0, g: 0, b: 255, a: 255 };
    let shapes = || {
        vec![
            square(Some(red)),
            square(Some(red)),
            square(Some(blue)),
            square(None),
        ]
    };
    let mut painted = glyph("A", vec![own_layer(shapes(), true)]);
    painted.production_name = Some(text("uni0041"));

    let made = split_colrv1_glyph(&painted, &painted.layers[0]).unwrap();
    let names: Vec<_> = made.iter().map(|g| g.name.as_str()).collect();
    assert_eq!(names, ["A.color0", "A.color1", "A.color2"]);
    assert_eq!(made[1].production_name.as_deref(), Some("uni0041.color1"));
    let sizes: Vec<_> = made.iter().map(|g| g.layers[0].shapes.len()).collect();
    assert_eq!(sizes, [2, 1, 1]);
    assert!(made.iter().all(|g| g.export && g.layers[0].attributes.color));

    let (font, color_glyphs) = split_color_glyphs(plain_font(vec![painted]));
    assert_eq!(font.glyphs.len(), 4);
    assert_eq!(
        color_glyphs.get("A").unwrap(),
        &["A.color0", "A.color1", "A.color2"]
    );
}

#[test]
fn layers_of_different_sizes_cannot_be_split() {
    let red = Color { r: 255, g: 0, b: 0, a: 255 };
    let mut other = own_layer(vec![square(None)], true);
    other.layer_id = text("m1");
    let layers = vec![own_layer(vec![square(Some(red)), square(None)], true), other];
    assert!(!can_split_glyphs(&plain_font(vec![glyph("A", layers)])));
}

/// Sizes only matter where there is something to split.
#[test]
fn layers_of_one_paint_may_differ_in_size() {
    let mut other = own_layer(Vec::new(), true);
    other.layer_id = text("m1");
    let layers = vec![own_layer(vec![square(None), square(None)], true), other];
    let painted = glyph("A", layers);
    assert!(split_colrv1_glyph(&painted, &painted.layers[0]).unwrap().is_empty());
    let font = plain_font(vec![painted]);
    assert!(can_split_glyphs(&font));
    let (font, color_glyphs) = split_color_glyphs(font);
    assert_eq!(font.glyphs.len(), 1);
    assert_eq!(color_glyphs.get("A"), Some(&Vec::new()));
}

#[test]
fn a_glyph_without_layers_cannot_be_split() {
    let red = Color { r: 255, g: 0, b: 0, a: 255 };
    let layer = own_layer(vec![square(Some(red)), square(None)], true);
    let bad = split_colrv1_glyph(&glyph("A", Vec::new()), &layer).unwrap_err();
    assert_eq!(bad.name, "A.color0");
    assert_eq!(bad.cause, "Inconsistent layer sizes []");
    let plain = own_layer(vec![square(None)], true);
    assert!(split_colrv1_glyph(&glyph("A", Vec::new()), &plain).unwrap().is_empty());
}

#[test]
fn glyphs_without_the_default_layer_are_left_alone() {
    let mut layer = own_layer(vec![square(None)], true);
    layer.layer_id = text("m1");
    let (font, color_glyphs) = split_color_glyphs(plain_font(vec![glyph("A", vec![layer])]));
    assert!(color_glyphs.is_empty());
    assert_eq!(font.glyph_order, ["A"]);
}

// ---- paints ----

fn as_single(x: Real) -> Real {
    rank(unrank(x) as f32 as f64)
}

/// A layer with palette index 0xFFFF produces a solid paint with no color.
#[test]
fn palette_index_0xffff() {
    let layer = Layer {
        attributes: LayerAttributes {
            color_palette: Some(0xFFFF),
            ..Default::default()
        },
        ..Default::default()
    };
    let attr = ShapeAttributes::default();
    let paint = to_ir_paint(None, &text("test"), &layer, &attr, &as_single).unwrap();
    match paint {
        Paint::Solid { color } => {
            assert_eq!(color, None, "expected foreground paint (color: None)");
        }
        other => panic!("expected Paint::Solid, got {other:?}"),
    }
}

fn gradient(style: &str) -> ShapeAttributes {
    ShapeAttributes {
        gradient: Some(Gradient {
            start: ranks(&[0.1, 0.2]),
            end: ranks(&[0.3, 0.4]),
            style: text(style),
            colors: vec![ColorStop {
                color: Color { r: 1, g: 2, b: 3, a: 260 },
                stop_offset: rank(0.1),
            }],
        }),
        fill_color: None,
    }
}

#[test]
fn shapes_are_painted_with_what_they_have() {
    let name = text("test");
    let layer = Layer::default();
    let green = Color { r: 0, g: 300, b: 0, a: 255 };
    let filled = ShapeAttributes {
        fill_color: Some(green),
        gradient: None,
    };
    let narrow = paint::Color { r: 0, g: 44, b: 0, a: 255 };
    assert_eq!(to_ir_color(green), narrow);
    assert_eq!(
        to_ir_paint(None, &name, &layer, &filled, &as_single).unwrap(),
        Paint::Solid { color: Some(narrow) }
    );

    let stops = vec![paint::ColorStop {
        offset: rank(0.1f32 as f64),
        color: paint::Color { r: 1, g: 2, b: 3, a: 4 },
        alpha: rank(255.0),
    }];
    let at = |x: f64, y: f64| (rank(x), rank(y));
    assert_eq!(
        to_ir_paint(None, &name, &layer, &gradient(""), &as_single).unwrap(),
        Paint::LinearGradient {
            p0: at(0.1, 0.2),
            p1: at(0.3, 0.4),
            p2: None,
            color_line: stops.clone(),
        }
    );
    assert_eq!(
        to_ir_paint(None, &name, &layer, &gradient("circle"), &as_single).unwrap(),
        Paint::RadialGradient {
            p0: at(0.1, 0.2),
            p1: at(0.1, 0.2),
            r0: None,
            r1: None,
            color_line: stops,
        }
    );
}

#[test]
fn what_cannot_be_painted_is_reported() {
    let name = text("test");
    let problem = |palette: Option<&Vec<Color>>, index: Option<i64>, attr: &ShapeAttributes| {
        let mut layer = Layer {
            rest: 3,
            ..Layer::default()
        };
        layer.attributes.color = true;
        layer.attributes.color_palette = index;
        let bad = to_ir_paint(palette, &name, &layer, attr, &as_single).unwrap_err();
        assert_eq!(bad.glyph, "test");
        bad.problem
    };
    let attr = ShapeAttributes::default();
    let palette = vec![Color { r: 1, g: 2, b: 3, a: 4 }];
    assert_eq!(problem(None, Some(0), &attr), PaintProblem::NoPalette);
    assert_eq!(problem(Some(&palette), Some(1), &attr), PaintProblem::OutOfBounds(1));
    assert_eq!(problem(Some(&palette), Some(-1), &attr), PaintProblem::OutOfBounds(-1));
    assert_eq!(
        problem(Some(&palette), None, &attr),
        PaintProblem::NoPaint {
            attributes: LayerAttributes {
                color: true,
                color_palette: None,
            },
            rest: 3,
            shape: ShapeAttributes::default(),
        }
    );
    assert_eq!(
        problem(None, None, &gradient("swirl")),
        PaintProblem::UnrecognizedGradient(text("swirl"))
    );
    let mut layer = Layer::default();
    layer.attributes.color_palette = Some(0);
    assert_eq!(
        to_ir_paint(Some(&palette), &name, &layer, &attr, &as_single).unwrap(),
        Paint::Solid {
            color: Some(paint::Color { r: 1, g: 2, b: 3, a: 4 })
        }
    );
}

// ---- axes ----

/// Through the pairs, and off their ends by offset.
fn piecewise(map: &Vec<(Real, Real)>, x: Real) -> Real {
    let map: Vec<(f64, f64)> = map.iter().map(|(a, b)| (unrank(*a), unrank(*b))).collect();
    let x = unrank(x);
    let (first, last) = (map[0], map[map.len() - 1]);
    if x <= first.0 {
        return rank(x - first.0 + first.1);
    }
    if x >= last.0 {
        return rank(x - last.0 + last.1);
    }
    let i = map.iter().position(|(a, _)| *a >= x).unwrap();
    let ((a, b), (c, d)) = (map[i - 1], map[i]);
    rank(b + (x - a) / (c - a) * (d - b))
}

fn accept(_: &Vec<(Real, Real)>, _: usize) -> Option<String> {
    None
}

fn to_user(converter: &CoordConverter, design: Real) -> Real {
    match converter {
        CoordConverter::Unmapped { .. } => design,
        CoordConverter::Mapped { mappings, .. } => {
            let mut back: Vec<(Real, Real)> = mappings.iter().map(|(u, d)| (*d, *u)).collect();
            back.sort();
            back.dedup_by_key(|(d, _)| *d);
            piecewise(&back, design)
        }
    }
}

fn to_design(converter: &CoordConverter, user: Real) -> Real {
    match converter {
        CoordConverter::Unmapped { .. } => user,
        CoordConverter::Mapped { mappings, .. } => piecewise(mappings, user),
    }
}

/// Between the ends of each axis in design space.
fn normalize(axes: &Vec<coords::Axis>, design: &Location) -> Location {
    let mut r = Location::new();
    for axis in axes {
        let there = |user: Real| unrank(to_design(&axis.converter, user));
        let (min, default, max) = (there(axis.min), there(axis.default), there(axis.max));
        let pos = design.get(axis.tag).map(unrank).unwrap_or(default);
        let side = if pos < default { default - min } else { max - default };
        r.insert(axis.tag, rank(if side == 0.0 { 0.0 } else { (pos - default) / side }));
    }
    r
}

fn info_of(font: Font) -> Result<FontInfo, AxisError> {
    let (font, axes, indices) = reach_sources(font, &piecewise, &accept, &to_user, &to_design)?;
    assert!(can_split_glyphs(&font));
    Ok(FontInfo::new(font, axes, &indices, &normalize))
}

fn range(axis: &coords::Axis) -> (f64, f64, f64) {
    (unrank(axis.min), unrank(axis.default), unrank(axis.max))
}

/// Masters on one Weight axis, with a mapping.
fn weight_font(mapping: &[(f64, f64)], weights: &[f64]) -> Font {
    Font {
        axes: vec![source_axis("Weight", "wght")],
        axis_mappings: vec![(text("Weight"), pairs(mapping))],
        masters: weights.iter().map(|w| master(&format!("m{w}"), &[*w])).collect(),
        ..plain_font(Vec::new())
    }
}

/// When multiple user-space values map to the same design-space value (a
/// many-to-one axis map), the axis max should reflect the largest user-space
/// value, not the result of a lossy design-to-user round-trip.
#[test]
fn many_to_one_axis_map_preserves_max() {
    let mapping = [(100.0, 0.0), (400.0, 400.0), (900.0, 1000.0), (1000.0, 1000.0)];
    let font_info = info_of(weight_font(&mapping, &[0.0, 1000.0])).unwrap();
    let wght = font_info.axes.iter().find(|axis| axis.tag == WGHT).unwrap();
    // user=900 and user=1000 both map to design=1000;
    // axis max must be 1000 (the largest user value), not 900
    assert_eq!(wght.max, rank(1000.0));
}

/// The default master has no user location of its own; it's whatever the
/// mapping says its design location is, read backwards.
#[test]
fn user_coord_reverses_the_mapping() {
    let mappings = pairs(&[(300.0, 66.0), (400.0, 86.0), (700.0, 86.0)]);
    // the *last* user value for a repeated design value is the one that survives
    assert_eq!(to_user_coord(&mappings, rank(86.0), &piecewise), rank(700.0));
    // between vertices we interpolate...
    assert_eq!(to_user_coord(&mappings, rank(76.0), &piecewise), rank(500.0));
    // ...and off the end we extrapolate by offset
    assert_eq!(to_user_coord(&mappings, rank(65.0), &piecewise), rank(299.0));
}

/// A source that uses the Width axis as an italic toggle leaves every instance
/// on the default width, so the mapping pins the axis to one user value and
/// half the masters sit at a design value it never names.
#[test]
fn width_axis_pinned_by_instances() {
    let ids = ["regular", "bold", "italic-regular", "italic-bold"];
    let layer = |id: &str| Layer {
        layer_id: text(id),
        ..Default::default()
    };
    let font = Font {
        axes: vec![source_axis("Weight", "wght"), source_axis("Width", "wdth")],
        axis_mappings: vec![
            (text("Weight"), pairs(&[(400.0, 80.0), (700.0, 150.0)])),
            (text("Width"), pairs(&[(100.0, 1.0)])),
        ],
        masters: vec![
            master(ids[0], &[80.0, 0.0]),
            master(ids[1], &[150.0, 0.0]),
            master(ids[2], &[80.0, 1.0]),
            master(ids[3], &[150.0, 1.0]),
        ],
        instances: vec![
            single("Regular", &[80.0, 0.0]),
            single("Bold", &[150.0, 0.0]),
            single("Italic", &[80.0, 1.0]),
            single("Bold Italic", &[150.0, 1.0]),
        ],
        ..plain_font(vec![glyph("hyphen", ids.map(layer).into())])
    };
    let font_info = info_of(font).unwrap();

    let wdth = font_info.axes.iter().find(|axis| axis.tag == WDTH).unwrap();
    assert_eq!(range(wdth), (100.0, 100.0, 100.0));
    assert_eq!(
        wdth.converter,
        CoordConverter::Mapped {
            mappings: pairs(&[(100.0, 1.0)]),
            default_idx: 0,
        }
    );

    // the Weight axis, which nothing pins, is untouched
    let wght = font_info.axes.iter().find(|axis| axis.tag == WGHT).unwrap();
    assert_eq!(range(wght), (400.0, 400.0, 700.0));

    // the Width=0 masters are outside the axis and aren't in the font,
    // and neither are their layers or the instances that sit with them
    let font = &font_info.font;
    let masters: Vec<_> = font.masters.iter().map(|m| m.id.as_str()).collect();
    assert_eq!(masters, ["italic-regular", "italic-bold"]);
    let instances: Vec<_> = font.instances.iter().map(|i| i.name.as_str()).collect();
    assert_eq!(instances, ["Italic", "Bold Italic"]);
    let hyphen = font.glyphs.iter().find(|g| g.name == "hyphen").unwrap();
    let layers: Vec<_> = hyphen.layers.iter().map(|l| l.layer_id.as_str()).collect();
    assert_eq!(layers, ["italic-regular", "italic-bold"]);

    // the default master went with them, so the survivor at the default
    // location takes over
    assert_eq!(font.masters[font.default_master_idx].id, "italic-regular");

    // and everything that is left has its place
    let place = |wght: f64| Location::from_pairs(&vec![(WGHT, rank(wght)), (WDTH, 0)]);
    assert_eq!(
        font_info.master_positions,
        vec![
            (text("italic-regular"), place(0.0)),
            (text("italic-bold"), place(1.0)),
        ]
    );
    assert_eq!(
        font_info.master_indices,
        vec![(text("italic-regular"), 0), (text("italic-bold"), 1)]
    );
    assert_eq!(font_info.locations.len(), 4);
    assert_eq!(font_info.locations[3], (ranks(&[150.0, 1.0]), place(1.0)));
}

/// Dropping an axis and dropping a master meet here: a master's values still
/// have a slot for every axis the source declared, dropped ones included, so
/// reading one back has to skip the gaps rather than count from the left.
///
/// This source drops the *middle* axis - an inert Width - and keeps the Custom
/// axis after it, while its Weight axis is pinned by its instances so one
/// master falls outside it.
#[test]
fn a_dropped_axis_does_not_shift_the_masters_that_outlive_it() {
    let font = Font {
        axes: vec![
            source_axis("Weight", "wght"),
            source_axis("Width", "wdth"),
            source_axis("Custom", "XXXX"),
        ],
        axis_mappings: vec![(text("Weight"), pairs(&[(400.0, 65.0)]))],
        masters: vec![
            master("hollow", &[65.0, 100.0, 10.0]),
            master("solid", &[151.0, 100.0, 10.0]),
        ],
        ..plain_font(Vec::new())
    };
    let font_info = info_of(font).unwrap();

    let custom_tag = Tag(u32::from_be_bytes(*b"XXXX"));
    assert_eq!(
        font_info.axes.iter().map(|axis| axis.tag).collect::<Vec<_>>(),
        vec![WGHT, custom_tag],
        "the inert Width between them is gone"
    );
    // read through the gap, Custom is still the 10 the masters state; read past
    // it, it would be the 100 of the Width axis that isn't there any more
    assert_eq!(range(&font_info.axes[1]), (10.0, 10.0, 10.0));

    // the mapping only reaches design 65, so the master at 151 is outside the axis
    let font = &font_info.font;
    let masters: Vec<_> = font.masters.iter().map(|m| m.id.as_str()).collect();
    assert_eq!(masters, ["hollow"]);
    assert_eq!(font.masters[font.default_master_idx].id, "hollow");
}

#[test]
fn a_source_may_lose_its_default_for_good() {
    // the default location is where the mapping puts 400, and nobody is there
    let mapping = [(400.0, 65.0), (700.0, 100.0)];
    let font = weight_font(&mapping, &[20.0, 80.0, 90.0]);
    assert_eq!(info_of(font).unwrap_err(), AxisError::NoDefaultMaster);
}

#[test]
fn axes_say_what_is_wrong_with_them() {
    let mut font = weight_font(&[], &[0.0, 1000.0]);
    font.masters[1].axes_values.clear();
    assert_eq!(
        ir_axes(&font, &piecewise, &accept).unwrap_err(),
        AxisError::InconsistentAxisDefinitions {
            axes: vec![source_axis("Weight", "wght")],
            axis_values: Vec::new(),
        }
    );
    // the first master that is off is reported
    font.masters[0].axes_values.push(rank(7.0));
    assert_eq!(
        ir_axes(&font, &piecewise, &accept).unwrap_err(),
        AxisError::InconsistentAxisDefinitions {
            axes: vec![source_axis("Weight", "wght")],
            axis_values: ranks(&[0.0, 7.0]),
        }
    );

    let mut font = weight_font(&[], &[0.0, 1000.0]);
    font.axes[0].tag = text("weight");
    assert!(matches!(
        ir_axes(&font, &piecewise, &accept).unwrap_err(),
        AxisError::InvalidTag { raw_tag, .. } if raw_tag == "weight"
    ));

    // the default master is between two positions that the mapping names
    let mapping = [(400.0, 0.0), (700.0, 1000.0)];
    let font = weight_font(&mapping, &[500.0, 1000.0]);
    assert_eq!(
        ir_axes(&font, &piecewise, &accept).unwrap_err(),
        AxisError::MissingMappingForUserCoord {
            axis_name: text("Weight"),
            mappings: pairs(&mapping),
            value: rank(550.0),
        }
    );

    let refuse = |_: &Vec<(Real, Real)>, _: usize| Some(text("not sorted"));
    let font = weight_font(&mapping, &[0.0, 1000.0]);
    assert_eq!(
        ir_axes(&font, &piecewise, &refuse).unwrap_err(),
        AxisError::BadConverter(text("not sorted"))
    );
}

/// Without a mapping that means anything, design and user space are the same,
/// and virtual masters widen the axis.
#[test]
fn unmapped_axes_run_from_master_to_master() {
    let mut font = weight_font(&[(400.0, 400.0), (900.0, 900.0)], &[500.0, 300.0]);
    font.virtual_masters = vec![vec![(text("Weight"), rank(800.0)), (text("Width"), 0)]];
    let (axes, indices) = ir_axes(&font, &piecewise, &accept).unwrap();
    assert_eq!(indices, [0]);
    assert_eq!(range(&axes[0]), (300.0, 500.0, 800.0));
    assert!(matches!(axes[0].converter, CoordConverter::Unmapped { .. }));
}

/// An axis with one place that its mapping cannot reach is as good as unmapped.
#[test]
fn a_degenerate_axis_out_of_reach_is_unmapped() {
    let mapping = pairs(&[(400.0, 65.0)]);
    let axis = source_axis("Weight", "wght");
    let found = to_ir_axis(
        Some(&mapping),
        &ranks(&[80.0, 80.0]),
        0,
        &axis,
        &piecewise,
        &accept,
    )
    .unwrap();
    assert_eq!(range(&found), (80.0, 80.0, 80.0));
    assert!(!found.hidden);
}

#[test]
fn only_idle_axes_are_unwanted() {
    let found = |tag: &str, values: &[f64]| {
        let axis = source_axis("An axis", tag);
        to_ir_axis(None, &ranks(values), 0, &axis, &piecewise, &accept).unwrap()
    };
    assert_eq!(default_user_loc(WGHT), rank(400.0));
    assert_eq!(default_user_loc(WDTH), rank(100.0));
    assert_eq!(default_user_loc(Tag(1)), rank(0.0));
    let idle = found("wdth", &[100.0]);
    assert!(!wanted_in_designspace(&idle, true, false));
    assert!(wanted_in_designspace(&idle, true, true));
    assert!(wanted_in_designspace(&idle, false, false));
    assert!(wanted_in_designspace(&found("wdth", &[90.0]), true, false));
    assert!(wanted_in_designspace(&found("wdth", &[100.0, 110.0]), true, false));
}

#[test]
fn values_are_read_by_axis_or_by_slot() {
    let axes: Vec<_> = ["wght", "wdth"]
        .iter()
        .map(|tag| {
            let axis = source_axis(tag, tag);
            to_ir_axis(None, &ranks(&[0.0]), 0, &axis, &piecewise, &accept).unwrap()
        })
        .collect();
    assert_eq!(
        design_location(&axes, &ranks(&[1.0])).pairs(),
        vec![(WGHT, rank(1.0))]
    );
    assert_eq!(
        source_design_location(&axes, &vec![0, 2], &ranks(&[1.0, 2.0, 3.0])).pairs(),
        vec![(WDTH, rank(3.0)), (WGHT, rank(1.0))]
    );
    assert_eq!(
        source_design_location(&axes, &vec![0, 2], &ranks(&[1.0, 2.0])).pairs(),
        vec![(WGHT, rank(1.0))]
    );
}
