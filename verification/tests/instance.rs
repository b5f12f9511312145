//! What it takes to pin a variable font at one location.

use fontc::cff::{PathEl, PathPoint};
use fontc::coords::{Axis, CoordConverter, Location, Real, Tag};
use fontc::glyph::{
    swap_component_bases, swap_geometry, swap_kerning, Anchor, Component, Glyph, GlyphAnchors,
    GlyphInstance, KernGroup, KernPair, KernSide, KerningInstance,
};
use fontc::instance::{
    build_global_metrics, interpolate_glyph_instance, named_instance_at, pin_anchors, pin_glyph,
    pin_number_values, resolve, resolve_user, rule_applies, rule_swaps, variation_model_for_glyph,
    GlyphModel, InstanceSpec, InstanceSpecError, MetricsBuild, PinError,
};
use fontc::kerning::{pin_kerning, resolve_kern};
use fontc::pin_metadata::{
    name_inputs, pin_names, pin_os2_classes, pin_selection_flags, pin_static_metadata, NameInputs,
    PinArithmetic,
};
use fontc::postscript::{pin_postscript, postscript_weight_name};
use fontc::static_metadata::{
    Condition, ConditionSet, GlobalMetric, InstanceOverrides, MetaTableValues, NameId, NameKey,
    NamedInstance, Panose, PostscriptSettings, Rule, StaticMetadata, StyleMapStyle, Substitution,
    VariableFeature, BOLD, COMPATIBLE_FULL_NAME, COPYRIGHT_NOTICE, FAMILY_NAME, FULL_NAME, ITALIC,
    POSTSCRIPT_NAME, REGULAR, SUBFAMILY_NAME, TYPOGRAPHIC_FAMILY_NAME, TYPOGRAPHIC_SUBFAMILY_NAME,
    UNIQUE_ID, USE_TYPO_METRICS, VARIATIONS_POSTSCRIPT_NAME_PREFIX, WWS_FAMILY_NAME,
    WWS_SUBFAMILY_NAME,
};

const WGHT: Tag = Tag(0x77676874);
const WDTH: Tag = Tag(0x77647468);

/// The rank of a number among all doubles.
fn rank(x: f64) -> Real {
    let bits = x.to_bits();
    let magnitude = (bits & !(1 << 63)) as i64;
    if bits >> 63 == 1 {
        -magnitude
    } else {
        magnitude
    }
}

/// The number with a rank.
fn unrank(r: Real) -> f64 {
    if r < 0 {
        -f64::from_bits((-r) as u64)
    } else {
        f64::from_bits(r as u64)
    }
}

fn axis(name: &str, tag: Tag, min: f64, default: f64, max: f64) -> Axis {
    Axis {
        name: name.to_string(),
        tag,
        min: rank(min),
        default: rank(default),
        max: rank(max),
        hidden: false,
        converter: CoordConverter::Unmapped {
            min: rank(min),
            default: rank(default),
            max: rank(max),
        },
        ui_label_name: name.to_string(),
    }
}

fn wght() -> Axis {
    axis("Weight", WGHT, 400.0, 400.0, 700.0)
}

fn at(pos: f64) -> Location {
    Location::from_pairs(&vec![(WGHT, rank(pos))])
}

fn regular() -> Location {
    at(0.0)
}

fn bold() -> Location {
    at(1.0)
}

fn mid() -> Location {
    at(0.5)
}

/// [`mid`] in user space: `wght` runs 400..700, unmapped.
fn user_mid() -> Location {
    at(550.0)
}

fn user_bold() -> Location {
    at(700.0)
}

fn test_static_metadata_at(locations: Vec<Location>) -> StaticMetadata {
    StaticMetadata::new(
        1000,
        Vec::new(),
        vec![wght()],
        Vec::new(),
        locations,
        None,
        0,
        None,
        false,
    )
}

/// Two masters on one wght axis, nothing else populated.
fn test_static_metadata() -> StaticMetadata {
    test_static_metadata_at(vec![regular(), bold()])
}

/// Three masters on one wght axis, at 0, 0.5 and 1.
fn test_static_metadata_3() -> StaticMetadata {
    test_static_metadata_at(vec![regular(), mid(), bold()])
}

fn floats(values: &[f64]) -> Vec<Real> {
    values.iter().copied().map(rank).collect()
}

fn position(at: &Location) -> f64 {
    at.get(WGHT).map(unrank).unwrap_or(0.0)
}

/// How much masters at these places count at `x`, each between its neighbours.
fn weights(places: &[f64], x: f64) -> Vec<f64> {
    let mut sorted = places.to_vec();
    sorted.sort_by(f64::total_cmp);
    places
        .iter()
        .map(|p| {
            let i = sorted.iter().position(|q| q == p).unwrap();
            let below = i.checked_sub(1).map(|k| sorted[k]);
            let above = sorted.get(i + 1).copied();
            if x == *p {
                1.0
            } else if x < *p {
                match below {
                    Some(q) if x > q => (x - q) / (p - q),
                    Some(_) => 0.0,
                    None => 1.0,
                }
            } else {
                match above {
                    Some(q) if x < q => (q - x) / (q - p),
                    Some(_) => 0.0,
                    None => 1.0,
                }
            }
        })
        .collect()
}

fn scalars(masters: &Vec<Location>, pin: &Location) -> Vec<(Location, Real)> {
    let places: Vec<f64> = masters.iter().map(position).collect();
    let weights = weights(&places, position(pin));
    let mut r: Vec<(Location, Real)> = masters
        .iter()
        .zip(weights)
        .map(|(m, w)| (m.clone(), rank(w)))
        .collect();
    r.sort_by(|a, b| position(&a.0).total_cmp(&position(&b.0)));
    r
}

fn weigh(terms: &Vec<(Real, Real)>) -> Real {
    let products = terms.iter().map(|(v, w)| unrank(*v) * unrank(*w));
    rank(products.reduce(|a, b| a + b).unwrap_or(0.0))
}

/// Interpolate rows of numbers.
fn blend(rows: &[(f64, Vec<f64>)], x: f64) -> Result<Vec<f64>, String> {
    if rows.iter().any(|(_, row)| row.len() != rows[0].1.len()) {
        return Err("every point sequence must have the same length".to_string());
    }
    let places: Vec<f64> = rows.iter().map(|(p, _)| *p).collect();
    let weights = weights(&places, x);
    Ok((0..rows[0].1.len())
        .map(|i| rows.iter().zip(&weights).map(|((_, row), w)| row[i] * w).sum())
        .collect())
}

fn points_of(el: &PathEl) -> Vec<PathPoint> {
    match el {
        PathEl::MoveTo(p) | PathEl::LineTo(p) => vec![*p],
        PathEl::QuadTo(a, p) => vec![*a, *p],
        PathEl::CurveTo(a, b, p) => vec![*a, *b, *p],
        PathEl::ClosePath => Vec::new(),
    }
}

fn numbers_of(drawing: &GlyphInstance) -> Vec<f64> {
    let mut r = vec![unrank(drawing.width)];
    for el in drawing.contours.iter().flatten() {
        for p in points_of(el) {
            r.extend([unrank(p.x), unrank(p.y)]);
        }
    }
    for component in &drawing.components {
        r.extend(component.transform.map(unrank));
    }
    r
}

/// A drawing with the numbers of `values`, otherwise like `model`.
fn with_numbers(model: &GlyphInstance, values: &[f64]) -> GlyphInstance {
    let mut rest = values.iter().copied();
    let mut r = model.clone();
    r.width = rank(rest.next().unwrap());
    for el in r.contours.iter_mut().flatten() {
        let mut next = || point(rest.next().unwrap(), rest.next().unwrap());
        *el = match el {
            PathEl::MoveTo(_) => PathEl::MoveTo(next()),
            PathEl::LineTo(_) => PathEl::LineTo(next()),
            PathEl::QuadTo(..) => PathEl::QuadTo(next(), next()),
            PathEl::CurveTo(..) => PathEl::CurveTo(next(), next(), next()),
            PathEl::ClosePath => PathEl::ClosePath,
        };
    }
    for component in r.components.iter_mut() {
        component.transform = component.transform.map(|_| rank(rest.next().unwrap()));
    }
    r
}

fn interpolate_drawing(
    _: &GlyphModel,
    glyph: &Glyph,
    pin: &Location,
) -> Result<GlyphInstance, String> {
    let rows: Vec<(f64, Vec<f64>)> = glyph
        .sources
        .iter()
        .map(|(place, drawing)| (position(place), numbers_of(drawing)))
        .collect();
    let values = blend(&rows, position(pin))?;
    let default = glyph.sources.iter().find(|(place, _)| place.is_default()).unwrap();
    Ok(with_numbers(&default.1, &values))
}

fn interpolate_point(
    masters: &Vec<(Location, (Real, Real))>,
    _: &Vec<Tag>,
    pin: &Location,
) -> Result<Vec<(Real, Real)>, String> {
    let rows: Vec<(f64, Vec<f64>)> = masters
        .iter()
        .map(|(place, (x, y))| (position(place), vec![unrank(*x), unrank(*y)]))
        .collect();
    let values = blend(&rows, position(pin))?;
    Ok(vec![(rank(values[0]), rank(values[1]))])
}

fn interpolate_number(
    masters: &Vec<(Location, Real)>,
    _: &Vec<Tag>,
    pin: &Location,
) -> Result<Option<Real>, String> {
    let rows: Vec<(f64, Vec<f64>)> = masters
        .iter()
        .map(|(place, value)| (position(place), vec![unrank(*value)]))
        .collect();
    Ok(blend(&rows, position(pin))?.first().copied().map(rank))
}

/// Through the ranges of the axes, which are not mapped.
fn normalize(meta: &StaticMetadata, user: &Location) -> Result<Location, String> {
    let mut r = Location::new();
    for axis in &meta.axes {
        let pos = unrank(user.get(axis.tag).ok_or("a missing axis")?);
        let (min, default, max) = (unrank(axis.min), unrank(axis.default), unrank(axis.max));
        let side = if pos < default { default - min } else { max - default };
        r.insert(axis.tag, rank(if side == 0.0 { 0.0 } else { (pos - default) / side }));
    }
    Ok(r)
}

fn hundreds(class: Real) -> i32 {
    (unrank(class) / 100.0).round() as i32
}

fn weight_class(pos: Real) -> u16 {
    unrank(pos) as u16
}

/// The nearest of the nine, the lower of two.
fn width_class(pos: Real) -> u16 {
    let widths = [50.0, 62.5, 75.0, 87.5, 100.0, 112.5, 125.0, 150.0, 200.0];
    let mut best = 0;
    for (i, w) in widths.iter().enumerate() {
        if (unrank(pos) - w).abs() < (unrank(pos) - widths[best]).abs() {
            best = i;
        }
    }
    best as u16 + 1
}

/// A name table with the fallbacks of the derived names.
fn build_names(inputs: &NameInputs) -> Vec<(NameKey, String)> {
    let get = |id: NameId| {
        let found = inputs.names.iter().rev().find(|(i, _)| *i == id);
        found.map(|(_, name)| name.clone())
    };
    let family = get(TYPOGRAPHIC_FAMILY_NAME).or(get(FAMILY_NAME)).unwrap_or_default();
    let style = get(TYPOGRAPHIC_SUBFAMILY_NAME).unwrap_or("Regular".to_string());
    let ribbi = StyleMapStyle::parse(&style).is_some();
    let linked_family = if ribbi { family.clone() } else { format!("{family} {style}") };
    let linked_style = if ribbi { style.clone() } else { "Regular".to_string() };
    // a family name of the font is not one of the instance
    let stated_family = inputs.names.iter().rev().take_while(|(id, _)| *id != TYPOGRAPHIC_SUBFAMILY_NAME);
    let id1 = stated_family
        .into_iter()
        .find(|(id, _)| *id == FAMILY_NAME)
        .map(|(_, name)| name.clone())
        .unwrap_or(linked_family);
    let id2 = get(SUBFAMILY_NAME).unwrap_or(linked_style);
    let id6 = get(POSTSCRIPT_NAME).unwrap_or(format!("{family}-{style}").replace(' ', ""));
    let mut all: Vec<(NameId, String)> = vec![
        (FAMILY_NAME, id1.clone()),
        (SUBFAMILY_NAME, id2.clone()),
        (
            UNIQUE_ID,
            format!(
                "{}.{:03};{};{}",
                inputs.version_major, inputs.version_minor, inputs.vendor_id, id6
            ),
        ),
        (FULL_NAME, format!("{family} {style}")),
        (POSTSCRIPT_NAME, id6),
    ];
    if (&family, &style) != (&id1, &id2) {
        all.push((TYPOGRAPHIC_FAMILY_NAME, family));
        all.push((TYPOGRAPHIC_SUBFAMILY_NAME, style));
    }
    for (id, name) in &inputs.names {
        if *id == COPYRIGHT_NOTICE || *id > TYPOGRAPHIC_SUBFAMILY_NAME {
            all.push((*id, name.clone()));
        }
    }
    all.into_iter().map(|(id, name)| (NameKey::new(id, &name), name)).collect()
}

fn pinned_at(
    meta: &StaticMetadata,
    pin: &Location,
    user_pin: &Location,
    ni: Option<&NamedInstance>,
) -> StaticMetadata {
    let with = PinArithmetic {
        interpolate: interpolate_number,
        scalars,
        weigh,
        hundreds,
        build_names,
        weight_class,
        width_class,
    };
    pin_static_metadata(meta, pin, user_pin, ni, &with).unwrap()
}

fn settings_at(meta: &StaticMetadata, pin: &Location) -> PostscriptSettings {
    pin_postscript(meta, pin, &scalars, &weigh, &hundreds)
}

fn otround(x: f64) -> i32 {
    (x + 0.5).floor() as i32
}

fn point(x: f64, y: f64) -> PathPoint {
    PathPoint {
        x: rank(x),
        y: rank(y),
        rounded_x: otround(x),
        rounded_y: otround(y),
    }
}

fn rect(x0: f64, y0: f64, x1: f64, y1: f64) -> Vec<PathEl> {
    vec![
        PathEl::MoveTo(point(x0, y0)),
        PathEl::LineTo(point(x1, y0)),
        PathEl::LineTo(point(x1, y1)),
        PathEl::LineTo(point(x0, y1)),
        PathEl::ClosePath,
    ]
}

fn instance(
    width: f64,
    contours: Vec<Vec<PathEl>>,
    components: Vec<Component>,
) -> GlyphInstance {
    GlyphInstance {
        width: rank(width),
        height: None,
        vertical_origin: None,
        contours,
        components,
    }
}

fn component(base: &str, transform: [f64; 6]) -> Component {
    Component {
        base: base.to_string(),
        transform: transform.map(rank),
        anchor: None,
    }
}

const IDENTITY: [f64; 6] = [1.0, 0.0, 0.0, 1.0, 0.0, 0.0];

fn two_master_glyph(name: &str, regular_inst: GlyphInstance, bold_inst: GlyphInstance) -> Glyph {
    Glyph {
        name: name.to_string(),
        emit_to_binary: true,
        codepoints: Vec::new(),
        sources: vec![(regular(), regular_inst), (bold(), bold_inst)],
    }
}

fn places_of<T>(list: &[(Location, T)]) -> Vec<&Location> {
    list.iter().map(|(place, _)| place).collect()
}

fn read_finite(raw: &String) -> Option<Real> {
    raw.parse::<f64>().ok().filter(|x| x.is_finite()).map(rank)
}

fn parse(spec: &str) -> Result<InstanceSpec, InstanceSpecError> {
    InstanceSpec::from_str(spec, &read_finite)
}

#[test]
fn parse_a_location() {
    assert_eq!(
        parse("wght=700,wdth=87.5").unwrap(),
        InstanceSpec::Location(Location::from_pairs(&vec![
            (WGHT, rank(700.0)),
            (WDTH, rank(87.5)),
        ]))
    );
}

#[test]
fn parse_a_style_name() {
    assert_eq!(
        parse("Bold Condensed").unwrap(),
        InstanceSpec::Named("Bold Condensed".to_string())
    );
}

#[test]
fn parse_rejects_what_it_cannot_read() {
    for (spec, wanted) in [
        ("", "not empty"),
        ("weight=700", "not an axis tag"),
        ("wght=heavy", "not a position"),
        ("wght=700,wdth", "not 'axis=position'"),
        ("wght=1,wght=2", "more than once"),
    ] {
        let e = parse(spec).unwrap_err().message();
        assert!(e.contains(wanted), "'{spec}' gave '{e}', wanted '{wanted}'");
    }
}

#[test]
fn what_is_said_of_a_spelling_names_it() {
    let said = |spec: &str| parse(spec).unwrap_err().message();
    assert_eq!(
        said(""),
        "an instance must be a style name or an axis position, not empty"
    );
    assert_eq!(said("wght=700,wdth"), "'wdth' is not 'axis=position'");
    assert_eq!(
        said("wght=heavy"),
        "'heavy' is not a position on axis 'wght'"
    );
    assert_eq!(said("wght=1,wght=2"), "axis 'wght' is given more than once");
    assert_eq!(said("weight=700"), "'weight' is not an axis tag: Invalid length (6)");
    assert_eq!(
        said("w\u{e9}t=700"),
        "'w\u{e9}t' is not an axis tag: Invalid byte 0xC3 at index 1"
    );
    assert_eq!(
        said("w\u{7}t=700"),
        "'w\u{7}t' is not an axis tag: Invalid byte 0x7 at index 1"
    );
}

#[test]
fn spaces_around_parts_do_not_count() {
    assert_eq!(parse(" wght = 700 ").unwrap(), parse("wght=700").unwrap());
    assert_eq!(parse("   ").unwrap_err(), InstanceSpecError::Empty);
}

#[test]
fn pin_glyph_midpoint_of_contours_and_width() {
    let meta = test_static_metadata();
    let glyph = two_master_glyph(
        "box",
        instance(500.0, vec![rect(0.0, 0.0, 100.0, 700.0)], Vec::new()),
        instance(600.0, vec![rect(0.0, 0.0, 300.0, 701.0)], Vec::new()),
    );

    let pinned = pin_glyph(&meta, &glyph, &mid(), &interpolate_drawing).unwrap();

    // one source, keyed by the source's own default location
    assert_eq!(places_of(&pinned.sources), vec![meta.default_location()]);
    let inst = &pinned.sources[0].1;
    assert_eq!(inst.width, rank(550.0));
    // the odd y1 lands on .5: interpolation must not round
    assert_eq!(inst.contours[0], rect(0.0, 0.0, 200.0, 700.5));
}

#[test]
fn pin_glyph_midpoint_of_component_transforms() {
    let meta = test_static_metadata();
    let scaled = |scale: f64, dx: f64| component("box", [scale, 0.0, 0.0, scale, dx, 0.0]);
    let glyph = two_master_glyph(
        "boxbox",
        instance(500.0, Vec::new(), vec![scaled(1.0, 0.0)]),
        instance(600.0, Vec::new(), vec![scaled(2.0, 41.0)]),
    );

    let pinned = pin_glyph(&meta, &glyph, &mid(), &interpolate_drawing).unwrap();

    let coeffs = pinned.sources[0].1.components[0].transform.map(unrank);
    assert_eq!(coeffs, [1.5, 0.0, 0.0, 1.5, 20.5, 0.0]);
}

#[test]
fn pin_glyph_at_a_master_is_that_master() {
    let meta = test_static_metadata();
    let bold_instance = instance(600.0, vec![rect(0.0, 0.0, 300.0, 701.0)], Vec::new());
    let glyph = two_master_glyph(
        "box",
        instance(500.0, vec![rect(0.0, 0.0, 100.0, 700.0)], Vec::new()),
        bold_instance.clone(),
    );

    let pinned = pin_glyph(&meta, &glyph, &bold(), &interpolate_drawing).unwrap();

    assert_eq!(pinned.sources[0].1, bold_instance);
}

/// A pin on a master copies it, so masters that could never interpolate
/// together still build there.
#[test]
fn pin_glyph_at_an_incompatible_master_is_that_master() {
    let meta = test_static_metadata();
    // three points vs four: no variation model can relate them
    let triangle = vec![
        PathEl::MoveTo(point(0.0, 0.0)),
        PathEl::LineTo(point(100.0, 0.0)),
        PathEl::LineTo(point(50.0, 700.0)),
        PathEl::ClosePath,
    ];
    let regular_instance = instance(500.0, vec![triangle], Vec::new());
    let bold_instance = instance(600.0, vec![rect(0.0, 0.0, 300.0, 701.0)], Vec::new());
    let glyph = two_master_glyph("S.001", regular_instance.clone(), bold_instance.clone());

    assert_eq!(
        pin_glyph(&meta, &glyph, &regular(), &interpolate_drawing).unwrap().sources[0].1,
        regular_instance
    );
    assert_eq!(
        pin_glyph(&meta, &glyph, &bold(), &interpolate_drawing).unwrap().sources[0].1,
        bold_instance
    );

    // between them there is nothing to copy and no way to interpolate
    let e = pin_glyph(&meta, &glyph, &mid(), &interpolate_drawing).unwrap_err();
    assert_eq!(e.name, "S.001");
    assert!(e.cause.contains("same length"), "{e:?}");
    let again = interpolate_glyph_instance(&meta, &glyph, &mid(), &interpolate_drawing);
    assert_eq!(again.unwrap_err(), e);
}

#[test]
fn pin_glyph_sparse_master() {
    let meta = test_static_metadata();
    // only defined at the default; nothing to interpolate from
    let glyph = Glyph {
        name: "box".to_string(),
        emit_to_binary: true,
        codepoints: Vec::new(),
        sources: vec![(
            regular(),
            instance(500.0, vec![rect(0.0, 0.0, 100.0, 700.0)], Vec::new()),
        )],
    };

    let pinned = pin_glyph(&meta, &glyph, &mid(), &interpolate_drawing).unwrap();

    assert_eq!(pinned.sources[0].1.width, rank(500.0));
}

#[test]
fn a_glyph_at_every_master_shares_the_model_of_the_font() {
    let meta = test_static_metadata();
    let drawing = || instance(500.0, Vec::new(), Vec::new());
    let mut glyph = two_master_glyph("box", drawing(), drawing());
    glyph.sources.reverse();
    assert_eq!(variation_model_for_glyph(&meta, &glyph), GlyphModel::Global);

    glyph.sources[0].0 = mid();
    assert_eq!(
        variation_model_for_glyph(&meta, &glyph),
        GlyphModel::Own {
            locations: vec![mid(), regular()],
            axis_order: vec![WGHT],
        }
    );
}

fn pos(x: f64, y: f64) -> (Real, Real) {
    (rank(x), rank(y))
}

#[test]
fn pin_anchors_midpoint() {
    let meta = test_static_metadata();
    let anchors = GlyphAnchors {
        glyph_name: "A".to_string(),
        anchors: vec![
            Anchor {
                kind: "top".to_string(),
                original_name: "top".to_string(),
                positions: vec![(regular(), pos(50.0, 700.0)), (bold(), pos(60.0, 701.0))],
            },
            Anchor {
                // present at only one master: interpolates from what it has
                kind: "bottom".to_string(),
                original_name: "bottom".to_string(),
                positions: vec![(regular(), pos(50.0, 0.0))],
            },
        ],
    };

    let pinned = pin_anchors(&meta, &anchors, &mid(), &interpolate_point).unwrap();

    assert_eq!(pinned.anchors.len(), 2);
    for anchor in &pinned.anchors {
        assert_eq!(places_of(&anchor.positions), vec![meta.default_location()]);
    }
    assert_eq!(pinned.anchors[0].positions[0].1, pos(55.0, 700.5));
    assert_eq!(pinned.anchors[1].positions[0].1, pos(50.0, 0.0));
}

#[test]
fn an_anchor_that_comes_to_nothing_is_at_the_origin() {
    let meta = test_static_metadata();
    let anchors = GlyphAnchors {
        glyph_name: "A".to_string(),
        anchors: vec![Anchor {
            kind: "top".to_string(),
            original_name: "top".to_string(),
            positions: vec![(regular(), pos(50.0, 700.0))],
        }],
    };
    let nothing = |_: &Vec<(Location, (Real, Real))>, _: &Vec<Tag>, _: &Location| Ok(Vec::new());
    let pinned = pin_anchors(&meta, &anchors, &mid(), &nothing).unwrap();
    assert_eq!(pinned.anchors[0].positions, vec![(regular(), pos(0.0, 0.0))]);

    let fail = |_: &Vec<(Location, (Real, Real))>, _: &Vec<Tag>, _: &Location| {
        Err("no model".to_string())
    };
    let e = pin_anchors(&meta, &anchors, &mid(), &fail).unwrap_err();
    assert_eq!((e.name.as_str(), e.cause.as_str()), ("A", "no model"));
}

fn glyph_side(name: &str) -> KernSide {
    KernSide::Glyph(name.to_string())
}

fn kern_pair(one: &str, two: &str) -> KernPair {
    (glyph_side(one), glyph_side(two))
}

fn first(name: &str) -> KernGroup {
    KernGroup::Side1(name.to_string())
}

fn second(name: &str) -> KernGroup {
    KernGroup::Side2(name.to_string())
}

fn side1(name: &str) -> KernSide {
    KernSide::Group(first(name))
}

fn side2(name: &str) -> KernSide {
    KernSide::Group(second(name))
}

/// Pairs and their values, in order of the pairs.
fn kerns(pairs: &[(KernPair, f64)]) -> Vec<(KernPair, Real)> {
    let mut r: Vec<(KernPair, Real)> = pairs
        .iter()
        .map(|(pair, value)| (pair.clone(), rank(*value)))
        .collect();
    r.sort();
    r
}

fn sorted(mut kerns: Vec<(KernPair, Real)>) -> Vec<(KernPair, Real)> {
    kerns.sort();
    kerns
}

fn kern_of(kerning: &KerningInstance, pair: KernPair) -> Option<f64> {
    let found = kerning.kerns.iter().find(|(p, _)| *p == pair);
    found.map(|(_, value)| unrank(*value))
}

fn kern_groups(groups: &[(KernGroup, &[&str])]) -> Vec<(KernGroup, Vec<String>)> {
    groups
        .iter()
        .map(|(group, members)| {
            (
                group.clone(),
                members.iter().map(|m| m.to_string()).collect(),
            )
        })
        .collect()
}

fn kerning_at(
    location: Location,
    pairs: &[(KernPair, f64)],
    groups: &Vec<(KernGroup, Vec<String>)>,
) -> KerningInstance {
    KerningInstance {
        location,
        kerns: kerns(pairs),
        groups: groups.clone(),
    }
}

fn kerning_pinned(
    meta: &StaticMetadata,
    instances: &Vec<KerningInstance>,
    pin: &Location,
) -> KerningInstance {
    pin_kerning(meta, instances, pin, &scalars, &weigh)
}

#[test]
fn pin_kerning_midpoint() {
    let meta = test_static_metadata();
    let groups = kern_groups(&[(first("A"), &["A"])]);
    let instances = vec![
        kerning_at(
            regular(),
            &[(kern_pair("A", "V"), -20.0), (kern_pair("A", "space"), -3.0)],
            &groups,
        ),
        // a non-default master's groups are ignored
        kerning_at(bold(), &[(kern_pair("A", "V"), -41.0)], &Vec::new()),
    ];

    let pinned = kerning_pinned(&meta, &instances, &mid());

    assert_eq!(&pinned.location, meta.default_location());
    assert_eq!(pinned.groups, groups);
    assert_eq!(kern_of(&pinned, kern_pair("A", "V")), Some(-30.5));
    // nothing in Bold covers ('A', 'space') - not the pair, not a class
    // pair - so Bold contributes 0 to it
    assert_eq!(kern_of(&pinned, kern_pair("A", "space")), Some(-1.5));
}

/// A pin that lands on a master takes that master's kerning verbatim, so an
/// explicit zero pair between two ungrouped glyphs survives there, while any
/// other pin runs the cascade and cleanup, which drops it.
#[test]
fn pin_kerning_at_a_master_is_that_master_verbatim() {
    let meta = test_static_metadata();
    let groups = kern_groups(&[(first("A"), &["A"])]);
    let instances = vec![
        kerning_at(regular(), &[(kern_pair("A", "V"), -20.0)], &groups),
        kerning_at(
            bold(),
            &[
                (kern_pair("A", "V"), -41.0),
                // explicitly zero, neither glyph in any group
                (kern_pair("maqaf-hb", "kafdagesh-hb"), 0.0),
            ],
            &Vec::new(),
        ),
    ];

    // at the Bold master: verbatim, zero pair kept, no resolution
    let pinned = kerning_pinned(&meta, &instances, &bold());
    assert_eq!(&pinned.location, meta.default_location());
    assert_eq!(pinned.groups, groups);
    assert_eq!(
        sorted(pinned.kerns),
        kerns(&[
            (kern_pair("A", "V"), -41.0),
            (kern_pair("maqaf-hb", "kafdagesh-hb"), 0.0),
        ])
    );

    // off-master: the general path's cleanup drops the ungrouped zero
    let pinned = kerning_pinned(&meta, &instances, &mid());
    assert_eq!(
        kern_of(&pinned, kern_pair("maqaf-hb", "kafdagesh-hb")),
        None
    );
}

/// A glyph that two groups of one side list is in the greater of them.
#[test]
fn pin_kerning_reads_the_greatest_group_of_a_glyph() {
    assert!(first("A") < first("B"));
    assert!(first("B") < second("A"));
    let meta = test_static_metadata();
    let groups = kern_groups(&[(first("A"), &["A"]), (first("B"), &["A"])]);
    let instances = vec![
        kerning_at(regular(), &[(kern_pair("A", "V"), -60.0)], &groups),
        kerning_at(
            bold(),
            &[
                ((side1("A"), glyph_side("V")), -100.0),
                ((side1("B"), glyph_side("V")), -200.0),
            ],
            &groups,
        ),
    ];

    let pinned = kerning_pinned(&meta, &instances, &mid());
    assert_eq!(kern_of(&pinned, kern_pair("A", "V")), Some(-130.0));
    assert_eq!(pinned.groups, groups);
}

/// Regular kerns literally, Bold only by class, at t = 0.5 and t = 0.25.
///
/// `('A','O')` is the point of the whole cascade — Bold has no such pair, and
/// contributing 0 there would give -30, not -130.
#[test]
fn pin_kerning_resolves_class_kerning_like_fontmake() {
    let meta = test_static_metadata();
    let groups = kern_groups(&[(first("A"), &["A", "T"]), (second("O"), &["O"])]);
    let instances = vec![
        kerning_at(
            regular(),
            &[
                (kern_pair("A", "O"), -60.0),
                (kern_pair("A", "space"), -3.0),
                (kern_pair("V", "O"), 20.0),
            ],
            &groups,
        ),
        kerning_at(
            bold(),
            &[
                (kern_pair("V", "O"), -20.0),
                ((side1("A"), side2("O")), -200.0),
            ],
            &groups,
        ),
    ];

    let mid = kerning_pinned(&meta, &instances, &mid());
    assert_eq!(
        sorted(mid.kerns),
        kerns(&[
            // 0.5 * -60 + 0.5 * (-200, via the class pair)
            (kern_pair("A", "O"), -130.0),
            // 0.5 * -3 + 0.5 * 0; nothing in Bold covers 'space'
            (kern_pair("A", "space"), -1.5),
            // zero, but survives cleanup because 'O' is a kern2 member
            (kern_pair("V", "O"), 0.0),
            ((side1("A"), side2("O")), -100.0),
        ])
    );

    let quarter = kerning_pinned(&meta, &instances, &at(0.25));
    assert_eq!(
        sorted(quarter.kerns),
        kerns(&[
            (kern_pair("A", "O"), -95.0),
            (kern_pair("A", "space"), -2.25),
            (kern_pair("V", "O"), 10.0),
            ((side1("A"), side2("O")), -50.0),
        ])
    );
}

/// Three masters, and at every pin one of them has a zero scalar.
///
/// - at 0.6 and 0.9 the first master's scalar is zero, so `('A','space')`
///   — a pair only *it* states — is not in the instance at all;
/// - `('T','O')` is in no master at 0.25 as a literal pair, and resolves
///   through a different rung of the cascade in each master.
#[test]
fn pin_kerning_three_masters_matches_fontmake() {
    let meta = test_static_metadata_3();
    let groups = kern_groups(&[
        (first("A"), &["A", "T"]),
        (first("V"), &["V"]),
        (second("O"), &["O"]),
    ]);
    let instances = vec![
        kerning_at(
            regular(),
            &[
                (kern_pair("A", "O"), 100.0),
                (kern_pair("A", "space"), -7.0),
                ((side1("A"), side2("O")), -50.0),
                ((side1("V"), glyph_side("O")), 30.0),
                (kern_pair("x", "x"), 5.0),
            ],
            &groups,
        ),
        kerning_at(
            mid(),
            &[
                (kern_pair("A", "O"), -100.0),
                (kern_pair("T", "O"), 11.0),
                ((side1("A"), side2("O")), -50.0),
            ],
            &groups,
        ),
        kerning_at(
            bold(),
            &[
                (kern_pair("A", "O"), 0.0),
                ((side1("A"), glyph_side("space")), 9.0),
                ((side1("V"), glyph_side("O")), -30.0),
                (kern_pair("x", "x"), -5.0),
            ],
            &groups,
        ),
    ];

    let pinned = kerning_pinned(&meta, &instances, &at(0.25));
    assert_eq!(
        sorted(pinned.kerns),
        kerns(&[
            // 0.5 * 100 + 0.5 * -100; kept, 'A' is a kern1 member
            (kern_pair("A", "O"), 0.0),
            (kern_pair("A", "space"), -3.5),
            // 0.5 * (-50, via the class pair) + 0.5 * 11
            (kern_pair("T", "O"), -19.5),
            ((side1("A"), side2("O")), -50.0),
            ((side1("V"), glyph_side("O")), 15.0),
            (kern_pair("x", "x"), 2.5),
        ])
    );

    let pinned = kerning_pinned(&meta, &instances, &at(0.6));
    assert_eq!(
        sorted(pinned.kerns),
        kerns(&[
            (kern_pair("A", "O"), -80.0),
            (kern_pair("T", "O"), 8.8),
            ((side1("A"), side2("O")), -40.0),
            ((side1("A"), glyph_side("space")), 1.7999999999999996),
            ((side1("V"), glyph_side("O")), -5.999999999999998),
            (kern_pair("x", "x"), -0.9999999999999998),
        ])
    );

    let pinned = kerning_pinned(&meta, &instances, &at(0.9));
    assert_eq!(
        sorted(pinned.kerns),
        kerns(&[
            (kern_pair("A", "O"), -19.999999999999996),
            (kern_pair("T", "O"), 2.1999999999999993),
            ((side1("A"), side2("O")), -9.999999999999998),
            ((side1("A"), glyph_side("space")), 7.2),
            ((side1("V"), glyph_side("O")), -24.0),
            (kern_pair("x", "x"), -4.0),
        ])
    );
}

#[test]
fn pin_kerning_cleanup_keeps_only_zero_exceptions() {
    let meta = test_static_metadata();
    let groups = kern_groups(&[(first("A"), &["A"]), (second("O"), &["O"])]);
    let instances = vec![
        kerning_at(
            regular(),
            &[
                (kern_pair("A", "space"), 10.0),
                (kern_pair("space", "O"), 10.0),
                (kern_pair("x", "x"), 5.0),
                ((side1("A"), side2("O")), 12.0),
            ],
            &groups,
        ),
        kerning_at(
            bold(),
            &[
                (kern_pair("A", "space"), -10.0),
                (kern_pair("space", "O"), -10.0),
                (kern_pair("x", "x"), -5.0),
                ((side1("A"), side2("O")), -12.0),
            ],
            &groups,
        ),
    ];

    let pinned = kerning_pinned(&meta, &instances, &mid());

    assert_eq!(
        sorted(pinned.kerns),
        kerns(&[
            // 'A' is a kern1 member, so this zero is an exception: kept
            (kern_pair("A", "space"), 0.0),
            // and so is 'O' on side 2
            (kern_pair("space", "O"), 0.0),
        ]),
        "a zero pair only survives if a side is a plain glyph in a kern group"
    );
}

#[test]
fn a_kern_is_resolved_from_the_most_specific_pair() {
    let groups = kern_groups(&[(first("A"), &["A"]), (second("O"), &["O"])]);
    let mut pairs = vec![
        (kern_pair("A", "O"), 1.0),
        ((side1("A"), glyph_side("O")), 2.0),
        ((glyph_side("A"), side2("O")), 3.0),
        ((side1("A"), side2("O")), 4.0),
    ];
    for wanted in [1.0, 2.0, 3.0, 4.0, 0.0] {
        let master = kerning_at(regular(), &pairs, &groups);
        let value = resolve_kern(&master, &glyph_side("A"), &glyph_side("O"), &groups);
        assert_eq!(unrank(value), wanted);
        if !pairs.is_empty() {
            pairs.remove(0);
        }
    }
}

#[test]
fn pin_number_values_midpoint() {
    let mut meta = test_static_metadata();
    meta.number_values = vec![
        (
            regular(),
            vec![
                ("crossbar".to_string(), rank(4.0)),
                ("shoulder".to_string(), rank(10.0)),
            ],
        ),
        (bold(), vec![("shoulder".to_string(), rank(21.0))]),
    ];

    let pinned = pin_number_values(&meta, &mid(), &interpolate_number).unwrap();

    assert_eq!(places_of(&pinned), vec![meta.default_location()]);
    let get = |name: &str| {
        let found = pinned[0].1.iter().find(|(n, _)| n == name);
        found.map(|(_, value)| unrank(*value))
    };
    assert_eq!(get("shoulder"), Some(15.5));
    // defined at only one master, so it doesn't vary
    assert_eq!(get("crossbar"), Some(4.0));
}

#[test]
fn numbers_that_cannot_be_interpolated_fail() {
    let mut meta = test_static_metadata();
    meta.number_values = vec![(regular(), vec![("shoulder".to_string(), rank(10.0))])];
    let fail = |_: &Vec<(Location, Real)>, _: &Vec<Tag>, _: &Location| Err("no model".to_string());
    assert_eq!(
        pin_number_values(&meta, &mid(), &fail).unwrap_err(),
        "no model"
    );
    let with = PinArithmetic {
        interpolate: fail,
        scalars,
        weigh,
        hundreds,
        build_names,
        weight_class,
        width_class,
    };
    let e = pin_static_metadata(&meta, &mid(), &user_mid(), None, &with).unwrap_err();
    assert_eq!(e, "no model");
}

#[test]
fn pin_static_metadata_is_static() {
    let mut meta = test_static_metadata();
    meta.named_instances = vec![NamedInstance {
        name: "Bold".to_string(),
        postscript_name: None,
        location: user_bold(),
        ..Default::default()
    }];

    let pinned = pinned_at(&meta, &mid(), &user_mid(), None);

    assert!(pinned.axes.is_empty(), "axes.is_empty() means static");
    assert!(pinned.named_instances.is_empty());
    assert!(pinned.variations.is_none());
    assert_eq!(pinned.variation_model.locations.len(), 1);
    // what the pin is keyed by is untouched, and so are the source axes
    assert_eq!(pinned.default_location(), meta.default_location());
    assert_eq!(pinned.default_location(), &at(0.0));
    assert_eq!(
        pinned.all_source_axes.iter().map(|a| a.tag).collect::<Vec<_>>(),
        vec![WGHT]
    );
    assert_eq!(pinned.units_per_em, meta.units_per_em);
}

fn classes_at(meta: &StaticMetadata, user: &Location) -> (Option<u16>, Option<u16>) {
    let mut pinned = meta.clone();
    pin_os2_classes(&mut pinned, &meta.axes, user, &weight_class, &width_class);
    (pinned.misc.us_weight_class, pinned.misc.us_width_class)
}

/// `usWeightClass` truncates the user coordinate; it does not round it.
#[test]
fn pin_weight_class_truncates() {
    let mut meta = test_static_metadata();
    // an axis that user 442.857 is inside
    meta.axes = vec![axis("Weight", WGHT, 100.0, 100.0, 900.0)];

    for (user, class) in [(442.857, 442), (443.0, 443), (899.999, 899), (100.0, 100)] {
        assert_eq!(classes_at(&meta, &at(user)), (Some(class), None), "wght={user}");
    }
}

/// `usWidthClass` is the nearest of the nine, and a tie goes to the lower.
#[test]
fn pin_width_class_breaks_ties_low() {
    let mut meta = test_static_metadata();
    meta.axes = vec![axis("Width", WDTH, 50.0, 100.0, 200.0)];

    for (user, class) in [
        (106.25, 5),
        (106.26, 6),
        (100.0, 5),
        (68.75, 2),
        (200.0, 9),
        (50.0, 1),
    ] {
        let user_pin = Location::from_pairs(&vec![(WDTH, rank(user))]);
        assert_eq!(classes_at(&meta, &user_pin), (None, Some(class)), "wdth={user}");
    }
}

/// An axis the source doesn't have leaves the interpolated class alone.
#[test]
fn pin_classes_only_where_there_is_an_axis() {
    let mut meta = test_static_metadata();
    meta.misc.us_weight_class = Some(501);
    meta.misc.us_width_class = Some(3);

    let pinned = pinned_at(&meta, &mid(), &user_mid(), None);

    // there is a wght axis, so the pin decides
    assert_eq!(pinned.misc.us_weight_class, Some(550));
    // there is no wdth axis, so whatever the masters said stands
    assert_eq!(pinned.misc.us_width_class, Some(3));
}

fn named(name: &str) -> NamedInstance {
    NamedInstance {
        name: name.to_string(),
        family_name: Some("Fam".to_string()),
        location: user_mid(),
        ..Default::default()
    }
}

fn record(id: NameId, value: &str) -> (NameKey, String) {
    (NameKey::new(id, value), value.to_string())
}

fn get(names: &[(NameKey, String)], id: NameId) -> Option<&str> {
    let found = names.iter().find(|(key, _)| key.name_id == id);
    found.map(|(_, value)| value.as_str())
}

/// Style-linked instances put ids 1 and 2 where the source said.
#[test]
fn pin_names_uses_the_style_map_names() {
    let mut meta = test_static_metadata();
    meta.names = vec![
        record(FAMILY_NAME, "Fam"),
        record(COPYRIGHT_NOTICE, "(c) Nobody"),
    ];
    let instance = NamedInstance {
        style_map_family_name: Some("Fam".to_string()),
        style_map_style_name: Some(StyleMapStyle::BoldItalic.to_name().to_string()),
        ..named("Bold Italic")
    };

    let names = pin_names(&meta, &instance, &build_names);

    assert_eq!(get(&names, FAMILY_NAME), Some("Fam"));
    assert_eq!(get(&names, SUBFAMILY_NAME), Some("Bold Italic"));
    assert_eq!(get(&names, FULL_NAME), Some("Fam Bold Italic"));
    assert_eq!(get(&names, POSTSCRIPT_NAME), Some("Fam-BoldItalic"));
    // 16 and 17 match 1 and 2, so both go
    assert_eq!(get(&names, TYPOGRAPHIC_FAMILY_NAME), None);
    assert_eq!(get(&names, TYPOGRAPHIC_SUBFAMILY_NAME), None);
    // what an instance keeps includes this one
    assert_eq!(get(&names, COPYRIGHT_NOTICE), Some("(c) Nobody"));

    assert_eq!(pin_selection_flags(&meta, &instance), BOLD | ITALIC);
}

/// Without style linking, the RIBBI fallback runs on the *style name*.
#[test]
fn pin_names_falls_back_for_a_non_ribbi_style() {
    let mut meta = test_static_metadata();
    meta.names = vec![record(FAMILY_NAME, "Fam")];
    meta.misc.selection_flags = REGULAR | USE_TYPO_METRICS;
    let instance = named("SemiBold Condensed");

    let names = pin_names(&meta, &instance, &build_names);

    assert_eq!(get(&names, FAMILY_NAME), Some("Fam SemiBold Condensed"));
    assert_eq!(get(&names, SUBFAMILY_NAME), Some("Regular"));
    assert_eq!(get(&names, TYPOGRAPHIC_FAMILY_NAME), Some("Fam"));
    assert_eq!(
        get(&names, TYPOGRAPHIC_SUBFAMILY_NAME),
        Some("SemiBold Condensed")
    );
    assert_eq!(get(&names, FULL_NAME), Some("Fam SemiBold Condensed"));

    assert_eq!(
        pin_selection_flags(&meta, &instance),
        REGULAR | USE_TYPO_METRICS
    );
}

/// The instance loses what isn't carried over to one.
#[test]
fn pin_drops_the_names_an_instance_cannot_inherit() {
    let mut meta = test_static_metadata();
    meta.names.extend([
        record(COMPATIBLE_FULL_NAME, "Fam Bold"),
        record(WWS_FAMILY_NAME, "Fam"),
        record(WWS_SUBFAMILY_NAME, "Bold"),
        record(UNIQUE_ID, "hand written"),
    ]);

    let names = pin_names(&meta, &named("Bold"), &build_names);

    for id in [COMPATIBLE_FULL_NAME, WWS_FAMILY_NAME, WWS_SUBFAMILY_NAME] {
        assert_eq!(get(&names, id), None, "{id:?} should be gone");
    }
    // the unique id is rebuilt, not inherited
    assert_eq!(get(&names, UNIQUE_ID), Some("0.000;NONE;Fam-Bold"));
}

/// PANOSE, fsType: what the instance path replaces rather than inherits.
#[test]
fn pin_instance_only_fontinfo_fallbacks() {
    let mut meta = test_static_metadata();
    meta.misc.panose = Some(Panose::from_digits([2, 11, 5, 2, 4, 5, 4, 2, 2, 4]));
    meta.misc.instance_panose = None; // the masters disagreed
    meta.misc.fs_type = None; // the source said nothing

    let pinned = pinned_at(&meta, &mid(), &user_mid(), None);

    assert_eq!(pinned.misc.panose, None);
    assert_eq!(pinned.misc.fs_type, Some(1 << 3));

    // an explicit fsType is not overridden
    meta.misc.fs_type = Some(0);
    let pinned = pinned_at(&meta, &mid(), &user_mid(), None);
    assert_eq!(pinned.misc.fs_type, Some(0));
}

/// Name id 3 keeps the vendor id exactly as the source spelled it.
#[test]
fn pin_names_keeps_the_vendor_id_verbatim() {
    for raw in ["IFF ", " ", "NONE"] {
        let mut meta = test_static_metadata();
        meta.names = vec![record(FAMILY_NAME, "Fam")];
        meta.misc.raw_vendor_id = Some(raw.to_string());

        let names = pin_names(&meta, &named("Bold"), &build_names);

        assert_eq!(
            get(&names, UNIQUE_ID),
            Some(format!("0.000;{raw};Fam-Bold").as_str()),
            "vendor id {raw:?}"
        );
        assert_eq!(name_inputs(&meta, &named("Bold")).vendor_id, raw);
    }
}

/// A style map style that isn't RIBBI goes to name id 2 untouched.
#[test]
fn pin_names_passes_a_non_ribbi_style_map_style_through() {
    let mut meta = test_static_metadata();
    meta.names = vec![record(FAMILY_NAME, "Doto")];
    meta.misc.selection_flags = REGULAR | USE_TYPO_METRICS;
    let instance = NamedInstance {
        style_map_family_name: Some("Doto Black".to_string()),
        style_map_style_name: Some("Black".to_string()),
        family_name: Some("Doto".to_string()),
        ..named("Black")
    };

    let names = pin_names(&meta, &instance, &build_names);
    assert_eq!(get(&names, FAMILY_NAME), Some("Doto Black"));
    assert_eq!(get(&names, SUBFAMILY_NAME), Some("Black"));

    assert_eq!(
        pin_selection_flags(&meta, &instance),
        USE_TYPO_METRICS,
        "a non-RIBBI style map style earns no RIBBI bit"
    );
    // spelled in title case, whatever the source wrote
    assert_eq!(
        NamedInstance {
            style_map_style_name: Some("BLACK".to_string()),
            ..instance
        }
        .style_map_style_display(),
        Some("Black".to_string())
    );
}

/// Two instances may share a style name; each has to match its own location.
#[test]
fn named_instance_at_tells_repeated_style_names_apart() {
    let mut meta = test_static_metadata();
    meta.named_instances = vec![
        NamedInstance {
            family_name: Some("Fam Condensed".to_string()),
            location: at(400.0),
            ..named("Regular")
        },
        NamedInstance {
            family_name: Some("Fam SemiExpanded".to_string()),
            location: at(700.0),
            ..named("Regular")
        },
    ];

    let spec = InstanceSpec::Location(user_bold());
    let found = named_instance_at(&meta, &spec, &bold(), &normalize);
    assert_eq!(
        found.and_then(|instance| instance.family_name.as_deref()),
        Some("Fam SemiExpanded")
    );
}

/// The instance's own PANOSE replaces the merged-across-masters one.
#[test]
fn pin_instance_overrides_replace_the_merged_panose() {
    let mut meta = test_static_metadata();
    meta.misc.instance_panose = Some(Panose::from_digits([2, 11, 0, 0, 0, 0, 0, 0, 0, 0]));
    let stated = Panose::from_digits([2, 11, 5, 2, 4, 5, 4, 2, 2, 4]);
    let instance = NamedInstance {
        overrides: InstanceOverrides {
            panose: Some(stated),
            ..Default::default()
        },
        ..named("Regular")
    };
    meta.named_instances = vec![instance.clone()];

    let pinned = pinned_at(&meta, &mid(), &user_mid(), Some(&instance));

    assert_eq!(pinned.misc.panose, Some(stated));
    // without an instance the merge still stands
    let pinned = pinned_at(&meta, &mid(), &user_mid(), None);
    assert_eq!(pinned.misc.panose, meta.misc.instance_panose);
}

/// The rest of the OS/2-ish parameters, and production names.
#[test]
fn pin_instance_overrides_the_rest_of_os2() {
    let mut meta = test_static_metadata();
    meta.misc.fs_type = Some(0);
    meta.misc.selection_flags = REGULAR;
    meta.postscript_names = Some(vec![("a".to_string(), "uni0061".to_string())]);
    let instance = NamedInstance {
        overrides: InstanceOverrides {
            fs_type: Some(1 << 2),
            is_fixed_pitch: Some(true),
            unicode_range_bits: Some(vec![0, 1]),
            meta_table: Some(MetaTableValues {
                dlng: vec!["Latn".to_string()],
                slng: vec!["Latn".to_string()],
            }),
            use_typo_metrics: Some(true),
            use_production_names: Some(false),
            ..Default::default()
        },
        ..named("Regular")
    };

    let pinned = pinned_at(&meta, &mid(), &user_mid(), Some(&instance));

    assert_eq!(pinned.misc.fs_type, Some(1 << 2));
    assert_eq!(pinned.misc.is_fixed_pitch, Some(true));
    assert_eq!(pinned.misc.unicode_range_bits, Some(vec![0, 1]));
    assert_eq!(
        pinned.misc.meta_table.as_ref().map(|meta| meta.dlng.clone()),
        Some(vec!["Latn".to_string()])
    );
    assert_ne!(pinned.misc.selection_flags & USE_TYPO_METRICS, 0);
    assert_eq!(pinned.postscript_names, None, "development names, then");
}

/// Stated names override; a typographic family name feeds the fallbacks.
#[test]
fn pin_names_applies_the_instance_name_parameters() {
    let mut meta = test_static_metadata();
    meta.names = vec![record(FAMILY_NAME, "Fam")];
    let instance = NamedInstance {
        overrides: InstanceOverrides {
            names: vec![
                (TYPOGRAPHIC_FAMILY_NAME, "Preferred".to_string()),
                (WWS_FAMILY_NAME, "Wws".to_string()),
            ],
            name_records: vec![record(25, "FamRoman")],
            ..Default::default()
        },
        ..named("Bold")
    };

    let names = pin_names(&meta, &instance, &build_names);
    // it beats the instance's own family name and feeds the id 1/4/6 fallbacks
    assert_eq!(get(&names, FAMILY_NAME), Some("Preferred"));
    assert_eq!(get(&names, FULL_NAME), Some("Preferred Bold"));
    assert_eq!(get(&names, POSTSCRIPT_NAME), Some("Preferred-Bold"));
    // and then 16/17 match 1/2, so they go
    assert_eq!(get(&names, TYPOGRAPHIC_FAMILY_NAME), None);
    // 21/22 are dropped unless the instance states them
    assert_eq!(get(&names, WWS_FAMILY_NAME), Some("Wws"));
    assert_eq!(get(&names, 25), Some("FamRoman"));
}

/// The font's Variations PostScript Name Prefix does not reach an instance.
#[test]
fn pin_names_drops_the_variations_postscript_prefix() {
    let mut meta = test_static_metadata();
    meta.names = vec![
        record(FAMILY_NAME, "Fam"),
        record(VARIATIONS_POSTSCRIPT_NAME_PREFIX, "FamVF"),
    ];
    let names = pin_names(&meta, &named("Bold"), &build_names);
    assert_eq!(
        get(&names, VARIATIONS_POSTSCRIPT_NAME_PREFIX),
        None,
        "id 25 survived: {names:?}"
    );

    // ...but an explicit record for id 25 still does
    let instance = NamedInstance {
        overrides: InstanceOverrides {
            name_records: vec![record(VARIATIONS_POSTSCRIPT_NAME_PREFIX, "FamRoman")],
            ..Default::default()
        },
        ..named("Bold")
    };
    let names = pin_names(&meta, &instance, &build_names);
    assert_eq!(
        get(&names, VARIATIONS_POSTSCRIPT_NAME_PREFIX),
        Some("FamRoman")
    );
}

/// Records in another language stay as they are.
#[test]
fn names_in_other_languages_reach_an_instance() {
    let mut meta = test_static_metadata();
    let german = NameKey::new_with_lang(FAMILY_NAME, "Schrift", 0x407);
    meta.names = vec![record(FAMILY_NAME, "Fam"), (german, "Schrift".to_string())];
    let names = pin_names(&meta, &named("Bold"), &build_names);
    assert!(names.contains(&(german, "Schrift".to_string())));
}

/// Two masters whose list lengths agree.
fn blue_match() -> Vec<(Location, PostscriptSettings)> {
    vec![
        (
            regular(),
            PostscriptSettings {
                blue_values: floats(&[-10.0, 0.0, 500.0, 510.0, 700.0, 710.0]),
                other_blues: floats(&[-210.0, -200.0]),
                family_blues: floats(&[-8.0, 0.0, 490.0, 500.0]),
                stem_snap_h: floats(&[20.0, 40.0]),
                stem_snap_v: floats(&[21.0]),
                blue_scale: Some(rank(0.0375)),
                blue_shift: Some(rank(7.0)),
                blue_fuzz: Some(rank(1.0)),
                force_bold: Some(false),
                weight_name: Some("Thin".to_string()),
                full_name: Some("WN Thin".to_string()),
                default_width_x: Some(rank(100.0)),
                nominal_width_x: Some(rank(200.0)),
                ..Default::default()
            },
        ),
        (
            bold(),
            PostscriptSettings {
                blue_values: floats(&[-20.0, 0.0, 600.0, 620.0, 800.0, 820.0]),
                other_blues: floats(&[-310.0, -300.0]),
                family_blues: floats(&[-18.0, 0.0, 590.0, 601.0]),
                stem_snap_h: floats(&[30.0, 50.0]),
                stem_snap_v: floats(&[31.0]),
                blue_scale: Some(rank(0.0475)),
                blue_shift: Some(rank(8.0)),
                blue_fuzz: Some(rank(2.0)),
                force_bold: Some(true),
                weight_name: Some("Black".to_string()),
                full_name: Some("WN Black".to_string()),
                default_width_x: Some(rank(201.0)),
                nominal_width_x: Some(rank(301.0)),
                ..Default::default()
            },
        ),
    ]
}

#[test]
fn pin_postscript_interpolates_every_number() {
    let mut meta = test_static_metadata();
    meta.postscript = blue_match();

    let pinned = settings_at(&meta, &mid());

    assert_eq!(
        pinned.blue_values,
        floats(&[-15.0, 0.0, 550.0, 565.0, 750.0, 765.0])
    );
    assert_eq!(pinned.other_blues, floats(&[-260.0, -250.0]));
    assert_eq!(pinned.family_blues, floats(&[-13.0, 0.0, 540.0, 550.5]));
    assert_eq!(pinned.stem_snap_h, floats(&[25.0, 45.0]));
    assert_eq!(pinned.stem_snap_v, floats(&[26.0]));
    assert_eq!(pinned.blue_scale, Some(rank(0.042499999999999996)));
    assert_eq!(pinned.blue_shift, Some(rank(7.5)));
    assert_eq!(pinned.blue_fuzz, Some(rank(1.5)));
    assert_eq!(pinned.default_width_x, Some(rank(150.5)));
    assert_eq!(pinned.nominal_width_x, Some(rank(250.5)));
    // copied from the default master, never interpolated
    assert_eq!(pinned.force_bold, Some(false));
    // both masters name themselves; the instance gets neither, because the
    // weight name is derived and neither master states a class
    assert_eq!(pinned.weight_name, None);
    assert_eq!(pinned.full_name, None);
}

/// The CFF `Weight` is derived from the *interpolated* weight class, not from
/// either master's own name.
///
/// | user wght | interpolated class | `Weight`    |
/// |---|---|---|
/// | 550    | 500   | Medium      |
/// | 475    | 300   | Light       |
/// | 418.75 | 150   | Extra-light |
/// | 456.25 | 250   | Light       |
/// | 418.6  | 149.6 | Thin        |
#[test]
fn pin_postscript_derives_the_weight_name_from_the_interpolated_class() {
    let mut meta = test_static_metadata();
    let settings = |name: &str, class: f64| PostscriptSettings {
        weight_name: Some(name.to_string()),
        os2_weight_class: Some(rank(class)),
        ..Default::default()
    };
    meta.postscript = vec![
        (regular(), settings("Thin", 100.0)),
        (bold(), settings("Black", 900.0)),
    ];

    let pinned = |t: f64| settings_at(&meta, &at(t));
    // wght 400..700, so these are (user - 400) / 300
    assert_eq!(pinned(0.5).os2_weight_class, Some(rank(500.0)));
    assert_eq!(pinned(0.5).weight_name.as_deref(), Some("Medium"));
    assert_eq!(pinned(0.25).weight_name.as_deref(), Some("Light"));
    assert_eq!(
        pinned(18.75 / 300.0).weight_name.as_deref(),
        Some("Extra-light")
    );
    assert_eq!(pinned(56.25 / 300.0).weight_name.as_deref(), Some("Light"));
    assert_eq!(pinned(18.6 / 300.0).weight_name.as_deref(), Some("Thin"));
    // a pin that *is* a master does no math at all, so no name is derived
    assert_eq!(pinned(0.0).weight_name, None);
    assert_eq!(pinned(1.0).weight_name, None);
}

#[test]
fn every_hundred_has_a_weight_name() {
    let names = [
        "Thin", "Thin", "Extra-light", "Light", "Normal", "Medium", "Semi-bold", "Bold",
        "Extra-bold", "Black", "Black",
    ];
    for (h, name) in names.iter().enumerate() {
        let found = postscript_weight_name(Some(h as i32));
        assert_eq!(found.as_deref(), Some(*name), "{h}");
    }
    assert_eq!(postscript_weight_name(Some(-1)).as_deref(), Some("Thin"));
    assert_eq!(postscript_weight_name(None), None);
}

/// With no weight class to derive from, the instance gets no CFF `Weight`.
#[test]
fn pin_postscript_without_weight_classes_writes_no_weight() {
    let mut meta = test_static_metadata();
    let settings = |name: &str| PostscriptSettings {
        weight_name: Some(name.to_string()),
        ..Default::default()
    };
    meta.postscript = vec![(regular(), settings("Thin")), (bold(), settings("Black"))];

    let pinned = settings_at(&meta, &mid());
    assert_eq!(pinned.os2_weight_class, None);
    assert_eq!(pinned.weight_name, None);
}

/// Blues 4 vs 6, stems 2 vs 3.
#[test]
fn pin_postscript_drops_length_mismatched_lists() {
    let mut meta = test_static_metadata();
    meta.postscript = vec![
        (
            regular(),
            PostscriptSettings {
                blue_values: floats(&[-10.0, 0.0, 500.0, 510.0]),
                other_blues: floats(&[-210.0, -200.0]),
                stem_snap_h: floats(&[20.0, 40.0]),
                stem_snap_v: floats(&[21.0]),
                ..Default::default()
            },
        ),
        (
            bold(),
            PostscriptSettings {
                blue_values: floats(&[-20.0, 0.0, 600.0, 620.0, 800.0, 820.0]),
                other_blues: floats(&[-310.0, -300.0]),
                stem_snap_h: floats(&[30.0, 50.0, 70.0]),
                stem_snap_v: floats(&[31.0]),
                ..Default::default()
            },
        ),
    ];

    let pinned = settings_at(&meta, &mid());

    assert!(pinned.blue_values.is_empty(), "{:?}", pinned.blue_values);
    assert!(pinned.stem_snap_h.is_empty(), "{:?}", pinned.stem_snap_h);
    // the lists that do agree are unaffected
    assert_eq!(pinned.other_blues, floats(&[-260.0, -250.0]));
    assert_eq!(pinned.stem_snap_v, floats(&[26.0]));
}

/// A list that two masters wipe out comes back with the next one.
#[test]
fn a_third_master_resurrects_a_list() {
    let mut meta = test_static_metadata_3();
    let blues = |values: &[f64]| PostscriptSettings {
        blue_values: floats(values),
        ..Default::default()
    };
    meta.postscript = vec![
        (regular(), blues(&[-10.0, 0.0])),
        (mid(), blues(&[-20.0, 0.0, 500.0, 510.0])),
        (bold(), blues(&[-30.0, 2.0])),
    ];
    let even = |masters: &Vec<Location>, _: &Location| {
        masters.iter().map(|m| (m.clone(), rank(0.5))).collect::<Vec<_>>()
    };
    let pinned = pin_postscript(&meta, &at(0.3), &even, &weigh, &hundreds);
    assert_eq!(pinned.blue_values, floats(&[-15.0, 1.0]));
}

/// A master's scalar at another master is zero, and a zero-scalar master
/// contributes nothing at all - not even a length to disagree with. So a pin
/// at a master is that master, mismatched lists and all.
#[test]
fn pin_postscript_at_a_master_is_that_master() {
    let mut meta = test_static_metadata();
    meta.postscript = vec![
        (
            regular(),
            PostscriptSettings {
                blue_values: floats(&[-10.0, 0.0]),
                force_bold: Some(false),
                ..Default::default()
            },
        ),
        (
            bold(),
            PostscriptSettings {
                blue_values: floats(&[-20.0, 0.0, 600.0, 620.0]),
                blue_shift: Some(rank(8.0)),
                force_bold: Some(true),
                weight_name: Some("Black".to_string()),
                full_name: Some("WN Black".to_string()),
                ..Default::default()
            },
        ),
    ];

    let pinned = settings_at(&meta, &bold());

    assert_eq!(pinned.blue_values, floats(&[-20.0, 0.0, 600.0, 620.0]));
    assert_eq!(pinned.blue_shift, Some(rank(8.0)));
    // ... except force_bold, which is always the *default* master's
    assert_eq!(pinned.force_bold, Some(false));
    // and these two, which a *multi*-master instance never gets
    assert_eq!(pinned.weight_name, None);
    assert_eq!(pinned.full_name, None);
}

/// One info master pinned at the default keeps its own names.
#[test]
fn pin_postscript_one_master_at_default_keeps_the_whole_fontinfo() {
    let mut meta = test_static_metadata_at(vec![regular()]);
    meta.postscript = vec![(
        regular(),
        PostscriptSettings {
            blue_values: floats(&[-10.0, 0.0]),
            weight_name: Some("Regular".to_string()),
            full_name: Some("Caprasimo Regular".to_string()),
            ..Default::default()
        },
    )];

    let pinned = settings_at(&meta, &regular());

    assert_eq!(pinned.weight_name, Some("Regular".to_string()));
    assert_eq!(pinned.full_name, Some("Caprasimo Regular".to_string()));
    assert_eq!(pinned.blue_values, floats(&[-10.0, 0.0]));
}

/// ...but two masters is two masters, even where one of them is silent.
#[test]
fn pin_postscript_two_masters_still_lose_the_names() {
    let mut meta = test_static_metadata();
    meta.postscript = vec![
        (
            regular(),
            PostscriptSettings {
                weight_name: Some("Regular".to_string()),
                full_name: Some("Fam Regular".to_string()),
                ..Default::default()
            },
        ),
        (bold(), PostscriptSettings::default()),
    ];

    let pinned = settings_at(&meta, &regular());

    assert_eq!(pinned.weight_name, None);
    assert_eq!(pinned.full_name, None);
}

/// Nothing is renormalised around a master that is simply silent: the instance
/// value is the scaled sum over the masters that speak.
#[test]
fn pin_postscript_partial_sum_when_a_master_is_silent() {
    let mut meta = test_static_metadata();
    meta.postscript = vec![
        (
            regular(),
            PostscriptSettings {
                blue_values: floats(&[-16.0, 0.0]),
                blue_shift: Some(rank(8.0)),
                ..Default::default()
            },
        ),
        (bold(), Default::default()),
    ];

    let pinned = settings_at(&meta, &mid());

    assert_eq!(pinned.blue_shift, Some(rank(4.0)));
    assert_eq!(pinned.blue_values, floats(&[-8.0, 0.0]));
}

#[test]
fn pin_static_metadata_pins_postscript() {
    let mut meta = test_static_metadata();
    meta.postscript = blue_match();

    let pinned = pinned_at(&meta, &mid(), &user_mid(), None);

    assert_eq!(places_of(&pinned.postscript), vec![meta.default_location()]);
    assert_eq!(
        pinned.postscript_default().blue_values,
        floats(&[-15.0, 0.0, 550.0, 565.0, 750.0, 765.0])
    );
}

/// The instance's own full name is the CFF `FullName`, beating the
/// family-plus-style fallback.
#[test]
fn pin_static_metadata_applies_the_instance_postscript_full_name() {
    let mut meta = test_static_metadata();
    meta.postscript = blue_match();
    let instance = NamedInstance {
        overrides: InstanceOverrides {
            postscript_full_name: Some("FamThinItalic".to_string()),
            ..Default::default()
        },
        ..named("Thin Italic")
    };

    let pinned = pinned_at(&meta, &mid(), &user_mid(), Some(&instance));

    assert_eq!(
        pinned.postscript_default().full_name.as_deref(),
        Some("FamThinItalic")
    );
    // and an instance that says nothing still gets nothing
    let pinned = pinned_at(&meta, &mid(), &user_mid(), Some(&named("Thin")));
    assert_eq!(pinned.postscript_default().full_name, None);
}

#[test]
fn pinned_glyph_key_matches_pinned_metadata_default() {
    // glyph sources are looked up by an exact default_location() key, so the
    // two must not drift apart
    let meta = test_static_metadata();
    let glyph = two_master_glyph(
        "box",
        instance(500.0, vec![rect(0.0, 0.0, 100.0, 700.0)], Vec::new()),
        instance(600.0, vec![rect(0.0, 0.0, 300.0, 700.0)], Vec::new()),
    );

    let pinned_meta = pinned_at(&meta, &mid(), &user_mid(), None);
    let pinned_glyph = pin_glyph(&meta, &glyph, &mid(), &interpolate_drawing).unwrap();

    assert!(
        places_of(&pinned_glyph.sources).contains(&pinned_meta.default_location()),
        "{:?} has no source at {:?}",
        places_of(&pinned_glyph.sources),
        pinned_meta.default_location()
    );
    assert_eq!(pinned_meta.default_location(), &at(0.0));
}

// ---- feature variation rules ----

fn variations(rules: Vec<Rule>) -> VariableFeature {
    VariableFeature {
        features: vec![Tag(0x7276726e)],
        rules,
    }
}

fn rule(condition_sets: &[&[(&str, (f64, f64))]], subs: &[(&str, &str)]) -> Rule {
    let sets = condition_sets
        .iter()
        .map(|set| {
            set.iter()
                .map(|(tag, (min, max))| (tag.to_string(), (rank(*min), rank(*max))))
                .collect()
        })
        .collect();
    let subs = subs
        .iter()
        .map(|(a, b)| (a.to_string(), b.to_string()))
        .collect();
    Rule::for_test(&sets, &subs)
}

fn a_to_b() -> Vec<Substitution> {
    vec![Substitution {
        replace: "a".to_string(),
        with: "b".to_string(),
    }]
}

fn swap(a: &str, b: &str) -> (String, String) {
    (a.to_string(), b.to_string())
}

fn swaps_at(variations: &VariableFeature, pos: f64) -> Vec<(String, String)> {
    rule_swaps(variations, &at(pos), &|_: &String| true)
}

/// Both bounds count as inside, and a condition that states only one of them is
/// unbounded on the other side.
#[test]
fn a_rule_range_includes_its_ends() {
    let closed = variations(vec![rule(&[&[("wght", (550.0, 700.0))]], &[("a", "b")])]);
    assert_eq!(swaps_at(&closed, 549.999), Vec::new());
    assert_eq!(
        swaps_at(&closed, 550.0),
        vec![swap("a", "b")],
        "the minimum is inside the range"
    );
    assert_eq!(
        swaps_at(&closed, 700.0),
        vec![swap("a", "b")],
        "and so is the maximum"
    );
    assert_eq!(swaps_at(&closed, 700.001), Vec::new());

    let open = variations(vec![Rule {
        conditions: vec![ConditionSet::from_conditions(vec![Condition::new(
            WGHT,
            Some(rank(550.0)),
            None,
        )])],
        substitutions: a_to_b(),
    }]);
    assert_eq!(swaps_at(&open, 549.0), Vec::new());
    assert_eq!(swaps_at(&open, 550.0).len(), 1);
    assert_eq!(swaps_at(&open, 10_000.0).len(), 1, "no maximum, no ceiling");
}

/// Condition sets are OR-ed, conditions within one AND-ed, which makes a rule
/// with no condition sets dead and a condition set with no conditions
/// unconditional.
#[test]
fn a_rule_needs_one_whole_condition_set() {
    let two_sets = variations(vec![rule(
        &[&[("wght", (400.0, 450.0))], &[("wght", (650.0, 700.0))]],
        &[("a", "b")],
    )]);
    assert_eq!(swaps_at(&two_sets, 425.0).len(), 1);
    assert_eq!(swaps_at(&two_sets, 500.0).len(), 0);
    assert_eq!(swaps_at(&two_sets, 675.0).len(), 1);

    let no_sets = variations(vec![Rule {
        conditions: Vec::new(),
        substitutions: a_to_b(),
    }]);
    assert_eq!(swaps_at(&no_sets, 500.0).len(), 0, "nothing to satisfy");

    let empty_set = variations(vec![Rule {
        conditions: vec![ConditionSet::from_conditions(Vec::new())],
        substitutions: a_to_b(),
    }]);
    assert_eq!(swaps_at(&empty_set, 500.0).len(), 1, "nothing to fail");
}

#[test]
fn a_condition_on_an_axis_the_pin_lacks_is_not_met() {
    let width = rule(&[&[("wdth", (0.0, 1000.0))]], &[("a", "b")]);
    assert!(!rule_applies(&width, &at(500.0)));
    let both = rule(
        &[&[("wght", (0.0, 1000.0)), ("wdth", (0.0, 1000.0))]],
        &[("a", "b")],
    );
    assert!(!rule_applies(&both, &at(500.0)));
}

/// Rule order, then substitution order, and the list is not deduplicated or
/// resolved: `a -> b` then `b -> c` is two swaps, not one.
#[test]
fn swaps_come_out_in_rule_then_sub_order() {
    let chain = variations(vec![
        rule(&[&[("wght", (550.0, 700.0))]], &[("a", "b"), ("x", "y")]),
        rule(&[&[("wght", (600.0, 700.0))]], &[("b", "c")]),
    ]);
    assert_eq!(
        swaps_at(&chain, 550.0),
        vec![swap("a", "b"), swap("x", "y")],
        "only the first rule fires"
    );
    assert_eq!(
        swaps_at(&chain, 650.0),
        vec![swap("a", "b"), swap("x", "y"), swap("b", "c")],
    );
}

/// A rule naming a glyph the source hasn't got is a no-op, and a glyph swapped
/// with itself is nothing at all.
#[test]
fn a_rule_on_a_glyph_that_is_not_there_does_nothing() {
    let rules = variations(vec![rule(
        &[&[("wght", (400.0, 700.0))]],
        &[("missing", "b"), ("a", "a"), ("a", "b")],
    )]);
    let swaps = rule_swaps(&rules, &at(500.0), &|name: &String| name != "missing");
    assert_eq!(
        swaps,
        vec![swap("a", "b")],
        "the substitute is not filtered here: a missing one is the caller's error"
    );
}

#[test]
fn a_swap_exchanges_drawings_and_widths_but_not_heights() {
    let mut a = GlyphInstance {
        width: rank(100.0),
        height: Some(rank(700.0)),
        vertical_origin: Some(rank(800.0)),
        contours: vec![rect(0.0, 0.0, 10.0, 10.0)],
        components: vec![component("x", IDENTITY)],
    };
    let mut b = GlyphInstance {
        width: rank(200.0),
        height: Some(rank(900.0)),
        vertical_origin: Some(rank(1000.0)),
        contours: vec![rect(0.0, 0.0, 20.0, 20.0)],
        components: Vec::new(),
    };

    swap_geometry(&mut a, &mut b);

    assert_eq!((a.width, b.width), (rank(200.0), rank(100.0)));
    assert_eq!(a.contours, vec![rect(0.0, 0.0, 20.0, 20.0)]);
    assert_eq!(b.contours, vec![rect(0.0, 0.0, 10.0, 10.0)]);
    assert!(a.components.is_empty());
    assert_eq!(b.components.len(), 1);
    // nothing else moves
    assert_eq!((a.height, b.height), (Some(rank(700.0)), Some(rank(900.0))));
    assert_eq!(
        (a.vertical_origin, b.vertical_origin),
        (Some(rank(800.0)), Some(rank(1000.0)))
    );
}

#[test]
fn a_swap_of_drawings_undoes_itself() {
    let mut a = instance(100.0, vec![rect(0.0, 0.0, 10.0, 10.0)], Vec::new());
    let mut b = instance(200.0, Vec::new(), vec![component("x", IDENTITY)]);
    swap_geometry(&mut a, &mut b);
    swap_geometry(&mut a, &mut b);
    assert_eq!((a.width, b.width), (rank(100.0), rank(200.0)));
    assert_eq!(a.contours, vec![rect(0.0, 0.0, 10.0, 10.0)]);
    assert!(a.components.is_empty());
    assert_eq!(b.components.len(), 1);
}

#[test]
fn a_swap_remaps_component_references_both_ways() {
    let mut glyph = instance(
        100.0,
        Vec::new(),
        ["a", "b", "c"]
            .into_iter()
            .map(|base| component(base, IDENTITY))
            .collect(),
    );
    let name = |s: &str| s.to_string();

    assert!(swap_component_bases(&mut glyph, &name("a"), &name("b")));
    assert_eq!(
        glyph.components.iter().map(|c| c.base.as_str()).collect::<Vec<_>>(),
        ["b", "a", "c"]
    );
    assert!(
        !swap_component_bases(&mut glyph, &name("y"), &name("z")),
        "a swap of glyphs nobody references changes nothing"
    );
}

/// The kerning half of a swap: literal pair keys on either side, and group
/// *membership* — never the group's name.
#[test]
fn a_swap_renames_kern_pairs_and_group_members() {
    let mut kerning = kerning_at(
        regular(),
        &[(kern_pair("A", "C"), -60.0)],
        &kern_groups(&[(first("A"), &["A"]), (second("C"), &["C"])]),
    );

    swap_kerning(&mut kerning, &"A".to_string(), &"B".to_string());
    swap_kerning(&mut kerning, &"B".to_string(), &"C".to_string());

    assert_eq!(kerning.kerns, kerns(&[(kern_pair("C", "B"), -60.0)]));
    assert_eq!(
        kerning.groups,
        kern_groups(&[(first("A"), &["C"]), (second("C"), &["B"])]),
    );
}

#[test]
fn a_swap_leaves_group_sides_alone() {
    let mut kerning = kerning_at(
        regular(),
        &[((side1("A"), glyph_side("A")), -10.0)],
        &Vec::new(),
    );

    swap_kerning(&mut kerning, &"A".to_string(), &"B".to_string());

    assert_eq!(
        kerning.kerns.first().map(|(pair, _)| pair),
        Some(&(side1("A"), glyph_side("B"))),
        "the group named for A is still named for A"
    );
}

/// Swapping the same two names once more is back to where we were, and in
/// between no two pairs have become one.
#[test]
fn a_kerning_swap_undoes_itself() {
    let pairs = [
        (kern_pair("A", "B"), -1.0),
        (kern_pair("B", "A"), -2.0),
        (kern_pair("A", "C"), -3.0),
        (kern_pair("B", "C"), -4.0),
    ];
    let groups = kern_groups(&[(first("A"), &["A", "C"]), (second("B"), &["B"])]);
    let mut kerning = kerning_at(regular(), &pairs, &groups);

    swap_kerning(&mut kerning, &"A".to_string(), &"B".to_string());
    for (i, (pair, _)) in kerning.kerns.iter().enumerate() {
        assert!(kerning.kerns[..i].iter().all(|(other, _)| other != pair));
    }
    swap_kerning(&mut kerning, &"A".to_string(), &"B".to_string());
    let mut found: Vec<_> = kerning.kerns.iter().collect();
    let mut wanted = kerns(&pairs);
    found.sort();
    wanted.sort();
    assert!(found.into_iter().eq(wanted.iter()));
    assert_eq!(kerning.groups, groups);
}

// ---- where an instance is ----

#[test]
fn resolving_goes_through_user_space() {
    let mut meta = test_static_metadata();
    meta.named_instances = vec![named("Medium")];
    let spec = InstanceSpec::Named("Medium".to_string());
    assert_eq!(resolve_user(&meta, &spec).unwrap(), user_mid());
    assert_eq!(resolve(&meta, &spec, &normalize).unwrap(), mid());

    let lost = |_: &StaticMetadata, _: &Location| Err("off the map".to_string());
    assert_eq!(
        resolve(&meta, &spec, &lost).unwrap_err(),
        PinError::Location("off the map".to_string())
    );
}

#[test]
fn metrics_are_pinned_only_for_an_instance() {
    let mut meta = test_static_metadata();
    assert_eq!(
        build_global_metrics(&meta, None, &normalize).unwrap(),
        MetricsBuild::Variable
    );

    let stated = vec![(GlobalMetric(3), rank(1234.0))];
    meta.named_instances = vec![NamedInstance {
        overrides: InstanceOverrides {
            metrics: stated.clone(),
            ..Default::default()
        },
        ..named("Medium")
    }];
    let here = InstanceSpec::Location(user_mid());
    assert_eq!(
        build_global_metrics(&meta, Some(&here), &normalize).unwrap(),
        MetricsBuild::Pinned {
            pin: mid(),
            key: regular(),
            overrides: stated,
        }
    );
    let elsewhere = InstanceSpec::Location(user_bold());
    assert_eq!(
        build_global_metrics(&meta, Some(&elsewhere), &normalize).unwrap(),
        MetricsBuild::Pinned {
            pin: bold(),
            key: regular(),
            overrides: Vec::new(),
        }
    );
    let unknown = InstanceSpec::Named("Nope".to_string());
    assert_eq!(
        build_global_metrics(&meta, Some(&unknown), &normalize).unwrap_err(),
        resolve_user(&meta, &unknown).unwrap_err()
    );
}
