//! Pinning a whole font at one instance.

use fontc::coords::{Axis, CoordConverter, Location, Real, Tag};
use fontc::glyph::{
    Anchor, Component, Glyph, GlyphAnchors, GlyphInstance, KernGroup, KernSide, KerningInstance,
};
use fontc::instance::{resolve, BadGlyph, GlyphModel, InstanceSpec, PinError};
use fontc::pin::{
    apply_swaps, declares_a_conditionset, design_pin, fea_declares_a_conditionset, pin_frontend,
    pin_kerning, prune_variable_names, swap_glyphs, FontArithmetic, FrontendIr, InstanceError, Pin,
};
use fontc::pin_metadata::{NameInputs, PinArithmetic};
use fontc::static_metadata::{
    NameKey, NamedInstance, Rule, StaticMetadata, VariableFeature, FAMILY_NAME,
};

const WGHT: Tag = Tag(0x77676874);
const WDTH: Tag = Tag(0x77647468);

/// The rank of a number among all doubles.
fn rank(x: f64) -> Real {
    let magnitude = (x.to_bits() & !(1 << 63)) as i64;
    if x.is_sign_negative() {
        -magnitude
    } else {
        magnitude
    }
}

fn unrank(r: Real) -> f64 {
    let magnitude = f64::from_bits(r.unsigned_abs());
    if r < 0 {
        -magnitude
    } else {
        magnitude
    }
}

fn show(x: Real) -> String {
    unrank(x).to_string()
}

fn location(positions: &[(Tag, f64)]) -> Location {
    let pairs = positions.iter().map(|(tag, pos)| (*tag, rank(*pos)));
    Location::from_pairs(&pairs.collect())
}

fn axis(tag: Tag, min: f64, default: f64, max: f64) -> Axis {
    let (min, default, max) = (rank(min), rank(default), rank(max));
    let name = String::from_utf8(tag.0.to_be_bytes().to_vec()).unwrap();
    Axis {
        name: name.clone(),
        tag,
        min,
        default,
        max,
        hidden: false,
        converter: CoordConverter::Unmapped { min, default, max },
        ui_label_name: name,
    }
}

fn metadata(axes: Vec<Axis>) -> StaticMetadata {
    let home = location(&axes.iter().map(|axis| (axis.tag, 0.0)).collect::<Vec<_>>());
    StaticMetadata::new(
        1000,
        Vec::new(),
        axes,
        Vec::new(),
        vec![home],
        None,
        0,
        None,
        false,
    )
}

fn variable() -> StaticMetadata {
    metadata(vec![
        axis(WGHT, 400.0, 400.0, 700.0),
        axis(WDTH, 75.0, 100.0, 125.0),
    ])
}

fn to_design(converter: &CoordConverter, user: Real) -> Real {
    match converter {
        CoordConverter::Unmapped { .. } => user,
        CoordConverter::Mapped { mappings, .. } => {
            let x = unrank(user);
            for pair in mappings.windows(2) {
                let (u0, d0) = (unrank(pair[0].0), unrank(pair[0].1));
                let (u1, d1) = (unrank(pair[1].0), unrank(pair[1].1));
                if (u0..=u1).contains(&x) {
                    return rank(d0 + (x - u0) / (u1 - u0) * (d1 - d0));
                }
            }
            user
        }
    }
}

/// By way of design space.
fn normalize(meta: &StaticMetadata, user: &Location) -> Result<Location, String> {
    let mut r = Location::new();
    for axis in &meta.axes {
        let convert = |pos: Real| unrank(to_design(&axis.converter, pos));
        let pos = convert(user.get(axis.tag).ok_or("a missing axis")?);
        let (min, default, max) = (convert(axis.min), convert(axis.default), convert(axis.max));
        let side = if pos < default { default - min } else { max - default };
        let pos = if side == 0.0 { 0.0 } else { (pos - default) / side };
        r.insert(axis.tag, rank(pos));
    }
    Ok(r)
}

fn spec(raw: &str) -> InstanceSpec {
    let position = |raw: &String| raw.parse::<f64>().ok().map(rank);
    InstanceSpec::from_str(raw, &position).unwrap()
}

fn resolved(meta: &StaticMetadata, raw: &str) -> Result<Location, PinError> {
    resolve(meta, &spec(raw), &normalize)
}

#[test]
fn resolve_a_location_and_default_the_rest() {
    let resolved = resolved(&variable(), "wght=550").unwrap();
    assert_eq!(resolved, location(&[(WGHT, 0.5), (WDTH, 0.0)]));
}

#[test]
fn resolve_every_axis() {
    let resolved = resolved(&variable(), "wght=700,wdth=75").unwrap();
    assert_eq!(resolved, location(&[(WGHT, 1.0), (WDTH, -1.0)]));
}

#[test]
fn resolve_applies_the_axis_mapping() {
    // user 500 sits at design/normalized 0.5 of the *mapped* range, so a
    // linear reading of user space would say 0.25
    let mut wght = axis(WGHT, 400.0, 400.0, 800.0);
    wght.converter = CoordConverter::Mapped {
        mappings: vec![
            (rank(400.0), rank(0.0)),
            (rank(500.0), rank(50.0)),
            (rank(800.0), rank(100.0)),
        ],
        default_idx: 0,
    };
    let resolved = resolved(&metadata(vec![wght]), "wght=500").unwrap();
    assert_eq!(resolved, location(&[(WGHT, 0.5)]));
}

fn bold_instance() -> NamedInstance {
    NamedInstance {
        name: "Bold".to_string(),
        location: location(&[(WGHT, 700.0), (WDTH, 100.0)]),
        ..Default::default()
    }
}

#[test]
fn resolve_a_named_instance() {
    let mut meta = variable();
    meta.named_instances = vec![bold_instance()];

    let resolved = resolved(&meta, "Bold").unwrap();
    assert_eq!(resolved, location(&[(WGHT, 1.0), (WDTH, 0.0)]));
}

#[test]
fn a_static_source_cannot_be_instanced() {
    // one point axis: static, and the shape a single-master source has
    let meta = metadata(vec![axis(WGHT, 400.0, 400.0, 400.0)]);
    let e = resolved(&meta, "wght=400").unwrap_err().message(&show);
    assert!(e.contains("requires a variable source"), "{e}");
}

#[test]
fn an_unknown_axis_lists_the_ones_there_are() {
    let e = resolved(&variable(), "opsz=14").unwrap_err().message(&show);
    assert!(e.contains("'opsz'"), "{e}");
    assert!(e.contains("wght, wdth"), "{e}");
}

#[test]
fn a_position_outside_the_axis_is_not_clamped() {
    let e = resolved(&variable(), "wght=900").unwrap_err().message(&show);
    assert!(e.contains("'wght'"), "{e}");
    assert!(e.contains("400"), "{e}");
    assert!(e.contains("700"), "{e}");
}

#[test]
fn an_unknown_instance_lists_the_ones_there_are() {
    let mut meta = variable();
    meta.named_instances = vec![bold_instance()];

    let e = resolved(&meta, "Boldish").unwrap_err().message(&show);
    assert!(e.contains("'Boldish'"), "{e}");
    assert!(e.contains("Bold"), "{e}");
}

#[test]
fn no_named_instances_at_all_still_reads() {
    let e = resolved(&variable(), "Bold").unwrap_err().message(&show);
    assert!(e.contains("none"), "{e}");
}

#[test]
fn what_is_said_of_a_pin_is_the_whole_of_it() {
    let said = |raw: &str| resolved(&variable(), raw).unwrap_err().message(&show);
    assert_eq!(
        said("opsz=14"),
        "--instance does not know axis 'opsz'; this source has wght, wdth"
    );
    assert_eq!(
        said("wght=900.5"),
        "--instance puts 'wght' at 900.5, outside its range 400..=700"
    );
    assert_eq!(
        said("Bold"),
        "--instance does not know an instance named 'Bold'; this source has none"
    );
    assert_eq!(
        PinError::RequiresVariableSource.message(&show),
        "--instance requires a variable source; this source has no variable axes"
    );
    assert_eq!(
        PinError::Location("off the map".to_string()).message(&show),
        "--instance cannot resolve that location: off the map"
    );
}

#[test]
fn what_is_said_of_an_instance_is_the_whole_of_it() {
    let explain = |bad: &BadGlyph| format!("{} is bad: {}", bad.name, bad.cause);
    let said = |e: InstanceError| e.message(&show, &explain);
    assert_eq!(
        said(InstanceError::RuleSubstituteMissing {
            replace: "a".to_string(),
            with: "b".to_string(),
        }),
        "--instance cannot apply the feature variation rule substituting 'a': there is no glyph 'b' to swap it with"
    );
    assert_eq!(
        said(InstanceError::SourceWithFeaConditionSet),
        "--instance does not yet support a feature file with a conditionset"
    );
    assert_eq!(
        said(InstanceError::Delta("no model".to_string())),
        "Unable to interpolate the instance: no model"
    );
    assert_eq!(
        said(InstanceError::Pin(PinError::RequiresVariableSource)),
        "--instance requires a variable source; this source has no variable axes"
    );
    let bad = BadGlyph {
        name: "a".to_string(),
        cause: "holes".to_string(),
    };
    assert_eq!(said(InstanceError::BadGlyph(bad)), "a is bad: holes");
}

#[test]
fn prune_names_minted_for_axes_and_instances() {
    let mut meta = variable();
    meta.named_instances = vec![NamedInstance {
        postscript_name: Some("Test-Bold".to_string()),
        ..bold_instance()
    }];
    // re-run the constructor so the axis/instance names get minted
    let family = NameKey::new(FAMILY_NAME, "Test");
    let meta = StaticMetadata::new(
        1000,
        vec![(family, "Test".to_string())],
        meta.all_source_axes.clone(),
        meta.named_instances.clone(),
        meta.variation_model.locations.clone(),
        None,
        0,
        None,
        false,
    );
    let minted: Vec<_> = meta
        .names
        .iter()
        .filter(|(key, _)| key.name_id > 255)
        .map(|(_, value)| value.clone())
        .collect();
    assert_eq!(minted.len(), 4, "{minted:?}");

    let mut pinned = meta.clone();
    prune_variable_names(&mut pinned, &meta);

    assert!(
        pinned.names.iter().all(|(key, _)| key.name_id <= 255),
        "{:?}",
        pinned.names
    );
    assert!(
        pinned.names.contains(&(family, "Test".to_string())),
        "names the source gave us are untouched"
    );
}

/// A minted id that stands for something no axis or instance is called stays.
#[test]
fn names_of_something_else_are_not_pruned() {
    let mut meta = variable();
    let key = NameKey::new(300, "Stylistic Set 1");
    meta.names.push((key, "Stylistic Set 1".to_string()));
    let mut pinned = meta.clone();
    prune_variable_names(&mut pinned, &meta);
    assert_eq!(pinned.names, vec![(key, "Stylistic Set 1".to_string())]);
}

#[test]
fn spot_a_conditionset() {
    assert!(declares_a_conditionset("conditionset Light {"));
    assert!(declares_a_conditionset("  conditionset Light {"));
    assert!(!declares_a_conditionset("feature liga {"));
    // not the keyword
    assert!(!declares_a_conditionset("@conditionsets = [a b];"));
    assert!(!declares_a_conditionset("sub conditionset.alt by x;"));
}

#[test]
fn a_commented_out_conditionset_is_not_one() {
    let features = "# conditionset Light {\nfeature liga { sub f i by f_i; } liga;\n";
    assert!(!fea_declares_a_conditionset(features));
}

#[test]
fn a_real_conditionset_is_one() {
    let features = "conditionset Light {\n wght 400 500;\n} Light;\n";
    assert!(fea_declares_a_conditionset(features));
}

#[test]
fn a_pin_is_taken_to_design_space_axis_by_axis() {
    let mut meta = variable();
    meta.all_source_axes[0].converter = CoordConverter::Mapped {
        mappings: vec![(rank(400.0), rank(0.0)), (rank(700.0), rank(30.0))],
        default_idx: 0,
    };
    let user = location(&[(WGHT, 550.0)]);
    assert_eq!(
        design_pin(&meta, &user, &to_design),
        location(&[(WGHT, 15.0), (WDTH, 100.0)]),
        "an axis nobody mentions is at its default"
    );
}

// ---- swaps ----

const IDENTITY: [f64; 6] = [1.0, 0.0, 0.0, 1.0, 0.0, 0.0];

fn home() -> Location {
    location(&[(WGHT, 0.0), (WDTH, 0.0)])
}

fn glyph(name: &str, width: f64, bases: &[&str]) -> Glyph {
    let components = bases.iter().map(|base| Component {
        base: base.to_string(),
        transform: IDENTITY.map(rank),
        anchor: None,
    });
    Glyph {
        name: name.to_string(),
        emit_to_binary: true,
        codepoints: vec![name.as_bytes()[0] as u32],
        sources: vec![(
            home(),
            GlyphInstance {
                width: rank(width),
                components: components.collect(),
                ..Default::default()
            },
        )],
    }
}

fn anchors(name: &str, kinds: &[&str]) -> GlyphAnchors {
    let anchor = |kind: &&str| Anchor {
        kind: kind.to_string(),
        original_name: kind.to_string(),
        positions: vec![(home(), (0, 0))],
    };
    GlyphAnchors {
        glyph_name: name.to_string(),
        anchors: kinds.iter().map(anchor).collect(),
    }
}

fn width_of(glyphs: &[Glyph], name: &str) -> f64 {
    let found = glyphs.iter().find(|g| g.name == name).unwrap();
    unrank(found.sources[0].1.width)
}

fn bases_of<'a>(glyphs: &'a [Glyph], name: &str) -> Vec<&'a str> {
    let found = glyphs.iter().find(|g| g.name == name).unwrap();
    let components = &found.sources[0].1.components;
    components.iter().map(|c| c.base.as_str()).collect()
}

fn kinds_of<'a>(all: &'a [GlyphAnchors], name: &str) -> Vec<&'a str> {
    let found = all.iter().find(|a| a.glyph_name == name);
    let anchors = found.map(|a| &a.anchors[..]).unwrap_or(&[]);
    anchors.iter().map(|a| a.kind.as_str()).collect()
}

fn text(s: &str) -> String {
    s.to_string()
}

#[test]
fn a_swap_moves_drawings_anchors_and_references() {
    let mut glyphs = vec![
        glyph("a", 100.0, &[]),
        glyph("b", 200.0, &["a", "x"]),
        glyph("c", 300.0, &["b", "a", "x"]),
    ];
    let before = glyphs.clone();
    let mut all = vec![anchors("a", &["top"])];

    swap_glyphs(&mut glyphs, &mut all, &text("a"), &text("b")).unwrap();

    assert_eq!(width_of(&glyphs, "a"), 200.0);
    assert_eq!(width_of(&glyphs, "b"), 100.0);
    assert_eq!(bases_of(&glyphs, "a"), ["b", "x"]);
    assert_eq!(bases_of(&glyphs, "b"), Vec::<&str>::new());
    assert_eq!(bases_of(&glyphs, "c"), ["a", "b", "x"]);
    assert_eq!(kinds_of(&all, "a"), Vec::<&str>::new());
    assert_eq!(kinds_of(&all, "b"), ["top"]);
    // who they are stays
    for (now, then) in glyphs.iter().zip(&before) {
        assert_eq!((&now.name, &now.codepoints), (&then.name, &then.codepoints));
    }

    // and once more is back to where we were
    swap_glyphs(&mut glyphs, &mut all, &text("a"), &text("b")).unwrap();
    assert_eq!(glyphs, before);
    assert_eq!(kinds_of(&all, "a"), ["top"]);
}

#[test]
fn a_missing_substitute_is_an_error() {
    let mut glyphs = vec![glyph("a", 100.0, &[])];
    let e = swap_glyphs(&mut glyphs, &mut Vec::new(), &text("a"), &text("b")).unwrap_err();
    assert_eq!(
        e,
        InstanceError::RuleSubstituteMissing {
            replace: text("a"),
            with: text("b"),
        }
    );
    assert_eq!(width_of(&glyphs, "a"), 100.0);
}

/// `a -> b` then `b -> c` is a cycle of three, not `a -> c`.
#[test]
fn swaps_are_done_one_after_another() {
    let mut glyphs = vec![
        glyph("a", 100.0, &[]),
        glyph("b", 200.0, &[]),
        glyph("c", 300.0, &[]),
    ];
    let swaps = vec![(text("a"), text("b")), (text("b"), text("c"))];
    apply_swaps(&mut glyphs, &mut Vec::new(), &swaps).unwrap();
    assert_eq!(width_of(&glyphs, "a"), 200.0);
    assert_eq!(width_of(&glyphs, "b"), 300.0);
    assert_eq!(width_of(&glyphs, "c"), 100.0);
}

// ---- the whole font ----

/// Between the default and the master at 1 on wght, nothing else.
fn blend(low: f64, high: f64, pin: &Location) -> f64 {
    let t = unrank(pin.get(WGHT).unwrap());
    low * (1.0 - t) + high * t
}

fn interpolate_glyph(
    _: &GlyphModel,
    glyph: &Glyph,
    pin: &Location,
) -> Result<GlyphInstance, String> {
    let (low, high) = (&glyph.sources[0].1, &glyph.sources.last().unwrap().1);
    if low.components.len() != high.components.len() {
        return Err("different structures".to_string());
    }
    Ok(GlyphInstance {
        width: rank(blend(unrank(low.width), unrank(high.width), pin)),
        ..low.clone()
    })
}

fn interpolate_anchor(
    masters: &Vec<(Location, (Real, Real))>,
    _: &Vec<Tag>,
    _: &Location,
) -> Result<Vec<(Real, Real)>, String> {
    Ok(vec![masters.first().ok_or("no masters")?.1])
}

fn interpolate_number(
    masters: &Vec<(Location, Real)>,
    _: &Vec<Tag>,
    _: &Location,
) -> Result<Option<Real>, String> {
    if masters.iter().any(|(_, value)| *value < 0) {
        return Err("a negative number".to_string());
    }
    Ok(masters.first().map(|(_, value)| *value))
}

fn scalars(masters: &Vec<Location>, pin: &Location) -> Vec<(Location, Real)> {
    let weight = |m: &Location| {
        if m.is_default() {
            blend(1.0, 0.0, pin)
        } else {
            blend(0.0, 1.0, pin)
        }
    };
    masters.iter().map(|m| (m.clone(), rank(weight(m)))).collect()
}

fn weigh(terms: &Vec<(Real, Real)>) -> Real {
    rank(terms.iter().map(|(v, w)| unrank(*v) * unrank(*w)).sum())
}

fn hundreds(class: Real) -> i32 {
    (unrank(class) / 100.0).round() as i32
}

fn truncated(pos: Real) -> u16 {
    unrank(pos) as u16
}

fn build_names(inputs: &NameInputs) -> Vec<(NameKey, String)> {
    let keyed = |(id, name): &(u16, String)| (NameKey::new(*id, name), name.clone());
    inputs.names.iter().map(keyed).collect()
}

fn bold() -> Location {
    location(&[(WGHT, 1.0), (WDTH, 0.0)])
}

fn source() -> FrontendIr {
    let mut meta = variable();
    meta.named_instances = vec![bold_instance()];
    let sets = vec![vec![(text("wght"), (rank(600.0), rank(700.0)))]];
    let subs = vec![(text("a"), text("b"))];
    meta.variations = Some(VariableFeature {
        features: vec![Tag(0x7276726e)],
        rules: vec![Rule::for_test(&sets, &subs)],
    });
    let mut glyphs = vec![glyph("a", 100.0, &[]), glyph("b", 500.0, &[])];
    for (g, width) in glyphs.iter_mut().zip([200.0, 700.0]) {
        let mut heavy = g.sources[0].1.clone();
        heavy.width = rank(width);
        g.sources.push((bold(), heavy));
    }
    FrontendIr {
        static_metadata: meta,
        glyphs,
        anchors: vec![anchors("a", &["top"])],
        features: Some("feature liga { sub f i by f_i; } liga;".to_string()),
    }
}

fn pinned(ir: FrontendIr, raw: &str) -> Result<(FrontendIr, Pin), InstanceError> {
    let with = FontArithmetic {
        normalize,
        interpolate_glyph,
        interpolate_anchor,
        to_design,
        metadata: PinArithmetic {
            interpolate: interpolate_number,
            scalars,
            weigh,
            hundreds,
            build_names,
            weight_class: truncated,
            width_class: truncated,
        },
    };
    pin_frontend(ir, &spec(raw), &with)
}

#[test]
fn a_pinned_font_is_static_and_swapped() {
    let (out, pin) = pinned(source(), "wght=625").unwrap();

    assert_eq!(pin.location, location(&[(WGHT, 0.75), (WDTH, 0.0)]));
    assert_eq!(pin.swaps, vec![(text("a"), text("b"))]);
    assert_eq!(pin.source_metadata, source().static_metadata);
    // interpolated, then swapped
    assert_eq!(width_of(&out.glyphs, "a"), 650.0);
    assert_eq!(width_of(&out.glyphs, "b"), 175.0);
    assert_eq!(kinds_of(&out.anchors, "b"), ["top"]);
    assert!(out.glyphs.iter().all(|g| g.sources.len() == 1 && g.sources[0].0 == home()));
    assert!(out.static_metadata.axes.is_empty());
    assert_eq!(out.static_metadata.variations, None);
    assert_eq!(out.static_metadata.misc.us_weight_class, Some(625));
    // the names of its axes and instances are gone
    assert!(out.static_metadata.names.iter().all(|(key, _)| key.name_id <= 255));
    assert_eq!(out.features, source().features);
}

#[test]
fn a_rule_out_of_range_swaps_nothing() {
    let (out, pin) = pinned(source(), "wght=550").unwrap();
    assert_eq!(pin.swaps, Vec::new());
    assert_eq!(width_of(&out.glyphs, "a"), 150.0);
    assert_eq!(width_of(&out.glyphs, "b"), 600.0);
}

#[test]
fn a_font_says_why_it_cannot_be_pinned() {
    assert_eq!(
        pinned(source(), "opsz=14").unwrap_err(),
        InstanceError::Pin(resolved(&source().static_metadata, "opsz=14").unwrap_err())
    );

    let mut ir = source();
    ir.features = Some("conditionset Light {\n wght 400 500;\n} Light;\n".to_string());
    assert_eq!(
        pinned(ir, "wght=550").unwrap_err(),
        InstanceError::SourceWithFeaConditionSet
    );

    let mut ir = source();
    ir.glyphs[1].sources[0].1.components.push(Component {
        base: text("a"),
        transform: IDENTITY.map(rank),
        anchor: None,
    });
    assert_eq!(
        pinned(ir, "wght=550").unwrap_err(),
        InstanceError::BadGlyph(BadGlyph {
            name: text("b"),
            cause: text("different structures"),
        })
    );

    let mut ir = source();
    ir.anchors[0].anchors[0].positions.clear();
    assert_eq!(
        pinned(ir, "wght=550").unwrap_err(),
        InstanceError::BadGlyph(BadGlyph {
            name: text("a"),
            cause: text("no masters"),
        })
    );

    let mut ir = source();
    ir.glyphs.pop();
    assert_eq!(
        pinned(ir, "wght=650").unwrap_err(),
        InstanceError::RuleSubstituteMissing {
            replace: text("a"),
            with: text("b"),
        }
    );

    let mut ir = source();
    ir.static_metadata.number_values = vec![(home(), vec![(text("stem"), rank(-1.0))])];
    assert_eq!(
        pinned(ir, "wght=550").unwrap_err(),
        InstanceError::Delta(text("a negative number"))
    );
}

fn kerning(at: Location, value: f64) -> KerningInstance {
    KerningInstance {
        location: at,
        kerns: vec![(
            (KernSide::Glyph(text("a")), KernSide::Glyph(text("v"))),
            rank(value),
        )],
        groups: vec![(KernGroup::Side1(text("A")), vec![text("a")])],
    }
}

#[test]
fn kerning_is_interpolated_then_swapped() {
    let (_, pin) = pinned(source(), "wght=625").unwrap();
    let locations = vec![home(), bold()];
    let instances = vec![kerning(home(), -10.0), kerning(bold(), -50.0)];

    let out = pin_kerning(Some(&locations), &instances, &pin, &scalars, &weigh).unwrap();

    assert_eq!(out.location, home());
    assert_eq!(
        out.kerns,
        vec![(
            (KernSide::Glyph(text("b")), KernSide::Glyph(text("v"))),
            rank(-40.0)
        )]
    );
    assert_eq!(
        out.groups,
        vec![(KernGroup::Side1(text("A")), vec![text("b")])]
    );
}

#[test]
fn a_font_without_kerning_gets_none() {
    let (_, pin) = pinned(source(), "wght=625").unwrap();
    assert!(pin_kerning(None, &Vec::new(), &pin, &scalars, &weigh).is_none());
    let nowhere = Vec::new();
    assert!(pin_kerning(Some(&nowhere), &Vec::new(), &pin, &scalars, &weigh).is_none());
}
