//! Blended values, and the variation store they are blended against.

use fontc::cff::{PathEl, PathPoint, PrivateDictValues};
use fontc::cff2::{
    blend_list, blend_optional_scalar, blend_private, blend_scalar, blending_settings,
    master_locations, sub_model_locations, Blend, Cff2Build, Number, Tent, VarStorePlan,
    VariationRegion,
};
use fontc::cff2_build::{
    build_cff2, private_dict, sub_model, BlendedCharstring, Cff2Font, Cff2Pen, DrawnGlyph,
    ModelArithmetic,
};
use fontc::cff_build::OutlineArithmetic;
use fontc::coords::{Axis, CoordConverter, Location, Real, Tag};
use fontc::error::{Error, GlyphProblem};
use fontc::static_metadata::{PostscriptSettings, StaticMetadata};

const WGHT: Tag = Tag(0x77676874);

/// The rank of a number among all doubles.
fn rank(x: f64) -> Real {
    let magnitude = (x.to_bits() & !(1 << 63)) as i64;
    if x.is_sign_negative() {
        -magnitude
    } else {
        magnitude
    }
}

fn unrank(r: Real) -> f64 {
    let magnitude = f64::from_bits(r.unsigned_abs());
    if r < 0 {
        -magnitude
    } else {
        magnitude
    }
}

fn wght(value: f64) -> Location {
    Location::from_pairs(&vec![(WGHT, rank(value))])
}

/// The tent of each position but the first, in ascending order.
fn tents(positions: &[f64]) -> Vec<(f64, f64, f64)> {
    (1..positions.len())
        .map(|i| {
            let above = positions.get(i + 1).copied().unwrap_or(1.0);
            (positions[i - 1], positions[i], above)
        })
        .collect()
}

fn scalar((min, peak, max): (f64, f64, f64), x: f64) -> f64 {
    if x == peak {
        1.0
    } else if x <= min || x >= max {
        0.0
    } else if x < peak {
        (x - min) / (peak - min)
    } else {
        (max - x) / (max - peak)
    }
}

fn number(x: Real) -> Number {
    let x = unrank(x);
    if x == x.trunc() {
        Number::Int(x as i64)
    } else {
        Number::Real(rank(x))
    }
}

fn as_double(n: &Number) -> f64 {
    match n {
        Number::Int(i) => *i as f64,
        Number::Real(r) => unrank(*r),
    }
}

fn position(location: &Location) -> f64 {
    unrank(location.get(WGHT).unwrap())
}

fn at(positions: &[f64]) -> Vec<Location> {
    positions.iter().map(|x| wght(*x)).collect()
}

/// The deltas of values at the given places, in ascending order of `wght`.
fn model(places: &Vec<Location>, values: &Vec<Number>) -> Vec<Number> {
    let positions: Vec<f64> = places.iter().map(position).collect();
    let tents = tents(&positions);
    let mut deltas: Vec<f64> = Vec::new();
    for (i, value) in values.iter().enumerate() {
        let mut delta = as_double(value);
        for (k, known) in deltas.iter().enumerate() {
            let reach = if k == 0 { 1.0 } else { scalar(tents[k - 1], positions[i]) };
            delta -= known * reach;
        }
        deltas.push(delta);
    }
    deltas.into_iter().map(|d| number(rank(d))).collect()
}

/// The regions of such a model, the default's first.
fn regions(positions: &[f64]) -> Vec<VariationRegion> {
    let tent = |(min, peak, max): (f64, f64, f64)| Tent {
        min: rank(min),
        peak: rank(peak),
        max: rank(max),
    };
    let on_wght = |t: (f64, f64, f64)| VariationRegion {
        tents: vec![(WGHT, tent(t))],
    };
    let mut r = vec![on_wght((0.0, 0.0, 0.0))];
    r.extend(tents(positions).into_iter().map(on_wght));
    r
}

fn blend(default: i64, deltas: &[i64]) -> Blend {
    Blend::new(
        Number::Int(default),
        deltas.iter().map(|d| Number::Int(*d)).collect(),
    )
}

fn plain(default: i64) -> Blend {
    Blend::scalar(Number::Int(default))
}

fn list(masters: &[&[i32]]) -> Vec<Blend> {
    let masters: Vec<Vec<i32>> = masters.iter().map(|m| m.to_vec()).collect();
    blend_list(&masters[0], &masters, &at(&[0.0, 1.0]), &model)
}

/// Masters that state *different numbers* of zones: rows stop at the shortest,
/// so the second master's last two zones vanish without a word.
///
/// Each row stores the default master's absolute value but a delta of the
/// row's value *relative to the previous row*, which is why the second row
/// blends `[0, 4]` and not `[0, 0]`.
#[test]
fn blue_values_truncate_to_the_shortest_master() {
    let blends = list(&[
        &[-10, 0, 500, 512, 700, 712],
        &[-14, 0, 520, 534, 720, 731, 800, 810],
    ]);
    assert_eq!(
        blends,
        vec![
            blend(-10, &[-4]),
            blend(0, &[4]),
            blend(500, &[20]),
            blend(512, &[2]),
            blend(700, &[-2]),
            blend(712, &[-1]),
        ]
    );
}

/// One varying row makes every row a blend, all-zero deltas included.
#[test]
fn one_varying_row_blends_the_whole_key() {
    assert_eq!(
        list(&[&[-12, 0], &[-15, -3]]),
        vec![blend(-12, &[-3]), blend(0, &[0])]
    );
}

/// ... and a key no master varies collapses back to a plain array.
#[test]
fn an_unvarying_key_is_not_a_blend() {
    let blends = list(&[&[-12, 0], &[-12, 0]]);
    assert_eq!(blends, vec![plain(-12), plain(0)], "no deltas at all");
    assert!(blends.iter().all(|value| !value.varies()));
}

/// A key the default master has and a region master does not is thrown away,
/// leaving the default master's own array unblended.
#[test]
fn a_key_missing_from_a_region_master_does_not_blend() {
    assert_eq!(
        list(&[&[-16, 0, 737, 753], &[]]),
        vec![plain(-16), plain(0), plain(737), plain(753)]
    );
    assert_eq!(list(&[&[], &[-16, 0]]), Vec::new());
}

fn ints(values: &[i64]) -> Vec<Number> {
    values.iter().map(|v| Number::Int(*v)).collect()
}

/// Scalars blend as plain deltas, unrounded, and collapse when the masters
/// agree. The three-master case checks that the deltas come back in the
/// model's own order.
#[test]
fn scalars_blend_unrounded() {
    let three = at(&[0.0, 0.4, 1.0]);
    assert_eq!(
        blend_scalar(&ints(&[20, 24, 30]), &three, &model),
        blend(20, &[4, 10])
    );
    assert_eq!(
        blend_scalar(&ints(&[7, 7, 7]), &three, &model),
        plain(7),
        "identical masters do not blend"
    );
    // a difference survives as a delta because it is not exactly zero
    let values = vec![
        Number::Real(rank(0.039473684)),
        Number::Real(rank(0.039473684210526314)),
    ];
    assert_eq!(
        blend_scalar(&values, &at(&[0.0, 1.0]), &model),
        Blend::new(
            Number::Real(rank(0.039473684)),
            vec![Number::Real(rank(2.1052631166140756e-10))]
        )
    );
}

/// `StdHW` and `StdVW` have no CFF default, so a master really can be missing
/// one; then the default master's value stays.
#[test]
fn a_scalar_missing_from_a_region_master_keeps_the_default() {
    let two = at(&[0.0, 1.0]);
    assert_eq!(
        blend_optional_scalar(&vec![Some(20), None], &two, &model),
        Some(plain(20))
    );
    assert_eq!(
        blend_optional_scalar(&vec![None, Some(20)], &two, &model),
        None,
        "and a key the default master lacks is not written at all"
    );
    assert_eq!(
        blend_optional_scalar(&vec![Some(20), Some(25)], &two, &model),
        Some(blend(20, &[5]))
    );
    assert_eq!(blend_optional_scalar(&Vec::new(), &two, &model), None);
}

/// A variation store index is minted per distinct participation set, in the
/// order the sets are first seen, and the region list accumulates across
/// sub-models without reordering or deduplicating subtables.
///
/// A sparse glyph comes first in glyph order, so *its* two-master model is
/// index 0 and the full model is index 1.
#[test]
fn vsindexes_are_minted_in_first_seen_order() {
    let full = regions(&[0.0, 0.4, 1.0]);
    let thin_bold = regions(&[0.0, 1.0]);
    let thin_mid = regions(&[0.0, 0.4]);
    let mut plan = VarStorePlan::new();

    assert_eq!(plan.vsindex_for(&vec![true, false, true], &thin_bold), 0);
    assert_eq!(plan.vsindex_for(&vec![true, true, true], &full), 1);
    assert_eq!(plan.vsindex_for(&vec![true, true, false], &thin_mid), 2);
    // the same set again is the same index
    assert_eq!(plan.vsindex_for(&vec![true, true, true], &full), 1);

    let tents: Vec<_> = plan
        .regions
        .iter()
        .map(|region| {
            let tent = region.get(WGHT).unwrap();
            (unrank(tent.min), unrank(tent.peak), unrank(tent.max))
        })
        .collect();
    assert_eq!(
        tents,
        vec![(0.0, 1.0, 1.0), (0.0, 0.4, 1.0), (0.4, 1.0, 1.0)],
        "the sparse glyph's region is region 0"
    );
    assert_eq!(plan.subtables, vec![vec![0], vec![1, 2], vec![1]]);
}

#[test]
fn only_what_the_default_master_states_is_in_the_private_dict() {
    let masters = vec![
        PrivateDictValues {
            blue_values: vec![-10, 0],
            blue_scale: Some(rank(0.039473684210526314)),
            blue_shift: Some(7),
            blue_fuzz: Some(2),
            std_hw: Some(20),
            ..Default::default()
        },
        PrivateDictValues {
            blue_values: vec![-20, 0],
            other_blues: vec![-200, -190],
            blue_scale: Some(rank(0.039473684210526314)),
            blue_shift: Some(9),
            std_hw: Some(24),
            std_vw: Some(30),
            ..Default::default()
        },
    ];
    let places = at(&[0.0, 1.0]);
    let private = blend_private(&masters, rank(0.039473684), &number, &places, &model);

    assert_eq!(private.blue_values, vec![blend(-10, &[-10]), blend(0, &[10])]);
    assert_eq!(private.other_blues, Vec::new());
    // read back with fewer digits, so it blends with the same number
    assert_eq!(
        private.blue_scale,
        Some(Blend::new(
            Number::Real(rank(0.039473684)),
            vec![Number::Real(rank(2.1052631166140756e-10))]
        ))
    );
    assert_eq!(private.blue_shift, None, "the CFF default of seven");
    // a master that states nothing has the default of one
    assert_eq!(private.blue_fuzz, Some(blend(2, &[-1])));
    assert_eq!(private.std_hw, Some(blend(20, &[4])));
    assert_eq!(private.std_vw, None);
}

#[test]
fn a_blue_scale_of_the_default_is_not_written() {
    let masters = vec![
        PrivateDictValues {
            blue_scale: Some(rank(0.039625)),
            ..Default::default()
        },
        PrivateDictValues {
            blue_scale: Some(rank(0.0375)),
            ..Default::default()
        },
    ];
    let places = at(&[0.0, 1.0]);
    let private = blend_private(&masters, rank(0.039625), &number, &places, &model);
    assert_eq!(private.blue_scale, None);
}

fn metadata() -> StaticMetadata {
    let (min, default, max) = (rank(400.0), rank(400.0), rank(700.0));
    let axis = Axis {
        name: "Weight".to_string(),
        tag: WGHT,
        min,
        default,
        max,
        hidden: false,
        converter: CoordConverter::Unmapped { min, default, max },
        ui_label_name: "Weight".to_string(),
    };
    StaticMetadata::new(
        1000,
        Vec::new(),
        vec![axis],
        Vec::new(),
        vec![wght(0.0), wght(1.0)],
        None,
        0,
        None,
        false,
    )
}

#[test]
fn a_master_without_settings_gets_the_defaults() {
    let mut meta = metadata();
    let shift = |value: f64| PostscriptSettings {
        blue_shift: Some(rank(value)),
        ..Default::default()
    };
    meta.postscript = vec![(wght(0.0), shift(1.0)), (wght(1.0), shift(2.0))];
    let masters = vec![wght(0.0), wght(0.5), wght(1.0)];
    assert_eq!(
        blending_settings(&meta, &masters),
        vec![shift(1.0), shift(1.0), shift(2.0)]
    );
    meta.postscript.clear();
    assert_eq!(
        blending_settings(&meta, &masters),
        vec![PostscriptSettings::unstated(); 3]
    );
}

#[test]
fn every_place_some_glyph_is_drawn_at_is_a_master() {
    let elsewhere = Location::from_pairs(&vec![(WGHT, rank(0.5)), (Tag(1), rank(0.3))]);
    let found = master_locations(
        &vec![wght(0.0), wght(1.0)],
        &vec![vec![wght(1.0), elsewhere], vec![wght(0.5), wght(0.7)]],
        &vec![WGHT],
    );
    assert_eq!(found, vec![wght(0.0), wght(1.0), wght(0.5), wght(0.7)]);
    assert_eq!(
        sub_model_locations(&found, &vec![true, false, true, false]),
        vec![wght(0.0), wght(0.5)]
    );
}

fn dot() -> Vec<PathEl> {
    vec![PathEl::MoveTo(PathPoint {
        x: 0,
        y: 0,
        rounded_x: 0,
        rounded_y: 0,
    })]
}

fn build(source_has_notdef: bool) -> Cff2Build {
    let masters = vec![wght(0.0), wght(0.4), wght(1.0)];
    Cff2Build::new(masters, &wght(0.0), vec![WGHT], source_has_notdef).unwrap()
}

#[test]
fn a_build_needs_a_default_master() {
    assert_eq!(
        Cff2Build::new(vec![wght(1.0)], &wght(0.0), vec![WGHT], true).unwrap_err(),
        Error::NoVariationModel(wght(0.0))
    );
    let outlines = vec![(wght(1.0), dot())];
    assert_eq!(
        build(true).prepare_glyph(&"a".to_string(), &outlines).unwrap_err(),
        Error::GlyphError("a".to_string(), GlyphProblem::MissingDefault)
    );
}

/// A master in which a glyph is missing or blank drops out; the default one
/// stays.
#[test]
fn glyphs_vary_across_the_masters_that_draw_them() {
    let build = build(true);
    let name = "a".to_string();
    let outlines = vec![(wght(0.0), Vec::new()), (wght(0.4), Vec::new()), (wght(1.0), dot())];
    let job = build.prepare_glyph(&name, &outlines).unwrap();
    assert_eq!(job.mask, vec![true, false, true]);
    assert_eq!(job.participants, 2);

    let job = build.prepare_glyph(&name, &vec![(wght(0.0), dot())]).unwrap();
    assert_eq!(job.mask, vec![true, false, false]);
}

/// A made-up `.notdef` is drawn in every master.
#[test]
fn a_made_up_notdef_takes_part_everywhere() {
    let notdef = ".notdef".to_string();
    let outlines = vec![(wght(0.0), dot())];
    let job = build(false).prepare_glyph(&notdef, &outlines).unwrap();
    assert_eq!(job.mask, vec![true, true, true]);
    assert!(job.outlines.iter().all(|(_, path)| *path == dot()));

    let job = build(true).prepare_glyph(&notdef, &outlines).unwrap();
    assert_eq!(job.mask, vec![true, false, false]);
    let job = build(false).prepare_glyph(&"a".to_string(), &outlines).unwrap();
    assert_eq!(job.mask, vec![true, false, false]);
}

#[test]
fn only_glyphs_that_blend_claim_an_index() {
    let mut build = build(true);
    let name = "a".to_string();
    let lone = build.prepare_glyph(&name, &vec![(wght(0.0), dot())]).unwrap();
    let both = vec![(wght(0.0), dot()), (wght(1.0), dot())];
    let both = build.prepare_glyph(&name, &both).unwrap();
    let over = regions(&[0.0, 1.0]);

    assert_eq!(build.record_glyph(&lone, true, true, &over, None, None), None);
    assert_eq!(build.record_glyph(&both, false, true, &over, None, None), None);
    assert_eq!(build.record_glyph(&both, true, false, &over, None, None), None);
    let zeros = Some([0; 4]);
    assert_eq!(build.record_glyph(&both, true, true, &over, zeros, zeros), Some(0));
    let some = Some([1, 2, 3, 4]);
    assert_eq!(build.record_glyph(&both, true, true, &over, some, some), Some(0));

    // an all-zero box is no box at all, but only once it is rounded
    assert_eq!(build.glyph_bounds, vec![None, None, None, None, some]);
    assert_eq!(build.glyph_outer_bounds, vec![None, None, None, zeros, some]);

    let full = regions(&[0.0, 0.4, 1.0]);
    assert_eq!(build.finish(&full), vec![true, false, true]);
    assert_eq!(build.plan.subtables, vec![vec![0]]);
}

/// Even a font in which nothing blends gets one index.
#[test]
fn the_private_dict_has_something_to_blend_against() {
    let mut build = build(true);
    let full = regions(&[0.0, 0.4, 1.0]);
    assert_eq!(build.finish(&full), vec![true, true, true]);
    assert_eq!(build.plan.subtables, vec![vec![0, 1]]);
}

/// Ascending, as a model orders its locations here.
fn order(places: &Vec<Location>) -> Vec<Location> {
    let mut places: Vec<Location> = places.iter().map(|place| place.clone()).collect();
    places.sort_by(|a, b| position(a).total_cmp(&position(b)));
    places
}

fn regions_at(places: &Vec<Location>) -> Vec<VariationRegion> {
    regions(&places.iter().map(position).collect::<Vec<_>>())
}

fn round(x: Real) -> i32 {
    (unrank(x) + 0.5).floor() as i32
}

fn floor(x: Real) -> i32 {
    unrank(x).floor() as i32
}

fn ceil(x: Real) -> i32 {
    unrank(x).ceil() as i32
}

fn blue_scale(_: &Vec<Real>, _: &Vec<Real>) -> Real {
    rank(0.0375)
}

/// Nine decimals.
fn read_back(x: Real) -> Real {
    rank((unrank(x) * 1e9).round() / 1e9)
}

/// One byte for each master, the number of its path elements, which has to be a
/// single digit.
fn draw(places: &Vec<Location>, paths: &Vec<Vec<PathEl>>) -> Result<BlendedCharstring, String> {
    assert_eq!(places.len(), paths.len());
    let lens: Vec<u8> = paths.iter().map(|path| path.len() as u8).collect();
    if lens.iter().any(|len| *len > 9) {
        return Err("too long".to_string());
    }
    let marking = lens.iter().any(|len| *len > 0);
    Ok(BlendedCharstring {
        bounds: if marking {
            Some([rank(0.25), rank(0.0), rank(lens[0] as f64 + 0.25), rank(1.0)])
        } else {
            None
        },
        blends: lens.iter().any(|len| *len != lens[0]),
        marking,
        bytes: lens,
    })
}

/// The index in front.
fn with_vsindex(bytes: &Vec<u8>, index: u16) -> Result<Vec<u8>, String> {
    if bytes.len() > 3 {
        return Err("stack overflow".to_string());
    }
    let mut r = vec![100 + index as u8];
    r.extend(bytes);
    Ok(r)
}

fn build_font(meta: &StaticMetadata, glyphs: Vec<DrawnGlyph>) -> Result<Cff2Font, Error> {
    build_cff2(
        meta,
        &glyphs,
        true,
        &OutlineArithmetic {
            round,
            blue_scale,
            floor,
            ceil,
        },
        &ModelArithmetic {
            order,
            regions: regions_at,
            deltas: model,
            read_back,
            number,
        },
        &Cff2Pen { draw, with_vsindex },
    )
}

fn dots(n: usize) -> Vec<PathEl> {
    let mut path = Vec::new();
    for _ in 0..n {
        path.extend(dot());
    }
    path
}

fn glyph(name: &str, outlines: &[(f64, usize)]) -> DrawnGlyph {
    DrawnGlyph {
        name: name.to_string(),
        outlines: outlines.iter().map(|(x, n)| (wght(*x), dots(*n))).collect(),
    }
}

fn bytes(font: &Cff2Font) -> Vec<Vec<u8>> {
    font.glyphs.iter().map(|g| g.bytes.clone()).collect()
}

/// The masters of a glyph, in the model's order, and the index that stands for
/// them: the sparse glyph comes first and so has index zero.
#[test]
fn each_glyph_blends_over_its_own_masters() {
    let font = build_font(
        &metadata(),
        vec![
            glyph("space", &[(0.0, 0), (1.0, 0)]),
            glyph("sparse", &[(1.0, 3), (0.0, 1)]),
            glyph("full", &[(0.0, 1), (0.4, 2), (1.0, 3)]),
            glyph("same", &[(0.0, 2), (1.0, 2)]),
            glyph("again", &[(0.0, 4), (1.0, 5)]),
        ],
    )
    .unwrap();
    assert_eq!(
        bytes(&font),
        vec![
            vec![0],
            vec![100, 1, 3],
            vec![101, 1, 2, 3],
            vec![2, 2],
            vec![100, 4, 5],
        ]
    );
    assert_eq!(font.plan.subtables, vec![vec![0], vec![1, 2]]);
    assert_eq!(font.units_per_em, metadata().units_per_em);
    assert_eq!(font.glyph_bounds[0], None);
    assert_eq!(font.glyph_bounds[1], Some([0, 0, 1, 1]));
    assert_eq!(font.glyph_outer_bounds[1], Some([0, 0, 2, 1]));
    assert_eq!(font.glyphs[1].bounds, Some([rank(0.25), 0, rank(1.25), rank(1.0)]));
}

/// The Private DICT blends against index zero, here of two masters out of the
/// three that the font has.
#[test]
fn the_private_dict_blends_over_the_masters_of_index_zero() {
    let mut meta = metadata();
    let blues = |low: f64| PostscriptSettings {
        blue_values: vec![rank(low), rank(0.0)],
        ..Default::default()
    };
    meta.postscript = vec![
        (wght(0.0), blues(-10.0)),
        (wght(0.4), blues(-12.0)),
        (wght(1.0), blues(-20.0)),
    ];
    let sparse = || glyph("sparse", &[(0.0, 1), (1.0, 3)]);
    let full = || glyph("full", &[(0.0, 1), (0.4, 2), (1.0, 3)]);

    let font = build_font(&meta, vec![sparse(), full()]).unwrap();
    assert_eq!(font.private.blue_values, vec![blend(-10, &[-10]), blend(0, &[10])]);
    assert_eq!(font.private.blue_scale, Some(Blend::scalar(Number::Real(rank(0.0375)))));

    let font = build_font(&meta, vec![full(), sparse()]).unwrap();
    assert_eq!(
        font.private.blue_values,
        vec![blend(-10, &[-2, -10]), blend(0, &[2, 10])]
    );

    let with = OutlineArithmetic {
        round,
        blue_scale,
        floor,
        ceil,
    };
    let arithmetic = ModelArithmetic {
        order,
        regions: regions_at,
        deltas: model,
        read_back,
        number,
    };
    let lone = private_dict(&meta, &at(&[0.4]), &with, &arithmetic);
    assert_eq!(lone.blue_values, vec![plain(-12), plain(0)]);
}

#[test]
fn a_font_is_not_built_if_a_glyph_cannot_be() {
    assert_eq!(
        build_font(&metadata(), vec![glyph("a", &[(1.0, 1)])]).unwrap_err(),
        Error::GlyphError("a".to_string(), GlyphProblem::MissingDefault)
    );
    assert_eq!(
        build_font(&metadata(), vec![glyph("a", &[(0.0, 10)])]).unwrap_err(),
        Error::Charstring("too long".to_string())
    );
    let many = glyph("a", &[(0.0, 1), (0.2, 2), (0.4, 3), (1.0, 4)]);
    assert_eq!(
        build_font(&metadata(), vec![many]).unwrap_err(),
        Error::Charstring("stack overflow".to_string())
    );

    let mut meta = metadata();
    meta.variation_model.locations = vec![wght(1.0)];
    assert_eq!(
        build_font(&meta, vec![glyph("a", &[(1.0, 1)])]).unwrap_err(),
        Error::NoVariationModel(wght(0.0))
    );
}

#[test]
fn all_masters_together_keep_their_order() {
    let masters = at(&[1.0, 0.0, 0.4]);
    assert_eq!(
        sub_model(&masters, &vec![true, true, true], &order),
        at(&[1.0, 0.0, 0.4])
    );
    assert_eq!(
        sub_model(&masters, &vec![true, true, false], &order),
        at(&[0.0, 1.0])
    );
}
