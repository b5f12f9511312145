//! The tables around outlines: `post`, vertical metrics, and how advances vary.

use fontc::cff::Bbox;
use fontc::cff2::{Tent, VariationRegion};
use fontc::coords::{Axis, CoordConverter, Location, Real, Tag};
use fontc::error::Error;
use fontc::metric_variations::{
    dense_origins, most_common, AdvanceDeltas, OriginGlyph, VerticalOriginDeltas,
};
use fontc::post::{final_glyph_names, post_table, PostNames, PostTable};
use fontc::static_metadata::StaticMetadata;
use fontc::vertical_metrics::{
    build_vhea, build_vorg_table, vertical_rows, vertical_tables, CffBounds, FeaVhea, Metrics,
    VertOriginYMetrics, VerticalGlyph, VerticalRow, VerticalTables, VheaDefaults,
};
use fontc::work::{
    create_cff_work, create_post_work, create_vertical_metrics_work, Access, WorkId,
};

const WGHT: Tag = Tag(0x77676874);

/// The rank of a number among all doubles.
fn rank(x: f64) -> Real {
    let magnitude = (x.to_bits() & !(1 << 63)) as i64;
    if x.is_sign_negative() {
        -magnitude
    } else {
        magnitude
    }
}

fn unrank(r: Real) -> f64 {
    let magnitude = f64::from_bits(r.unsigned_abs());
    if r < 0 {
        -magnitude
    } else {
        magnitude
    }
}

fn round(x: Real) -> i16 {
    (unrank(x) + 0.5).floor() as i16
}

fn fixed(x: Real) -> i32 {
    (unrank(x) * 65536.0).round() as i32
}

fn wght(value: f64) -> Location {
    Location::from_pairs(&vec![(WGHT, rank(value))])
}

fn metadata() -> StaticMetadata {
    let (min, default, max) = (rank(400.0), rank(400.0), rank(700.0));
    let axis = Axis {
        name: "Weight".to_string(),
        tag: WGHT,
        min,
        default,
        max,
        hidden: false,
        converter: CoordConverter::Unmapped { min, default, max },
        ui_label_name: "Weight".to_string(),
    };
    StaticMetadata::new(
        1000,
        Vec::new(),
        vec![axis],
        Vec::new(),
        vec![wght(0.0), wght(1.0)],
        None,
        0,
        None,
        false,
    )
}

fn texts(names: &[&str]) -> Vec<String> {
    names.iter().map(|n| n.to_string()).collect()
}

#[test]
fn without_a_rename_map_names_stay_as_they_are() {
    let order = texts(&[".notdef", "a-b", "a-b"]);
    assert_eq!(final_glyph_names(&order, None), order);
}

#[test]
fn renamed_glyphs_are_scrubbed_and_told_apart() {
    let order = texts(&["a", "b", "c", "d", "e", "a.1"]);
    let renames = vec![
        ("b".to_string(), "a".to_string()),
        ("c".to_string(), "a-".to_string()),
        ("d".to_string(), "uni\u{fc}0061!".to_string()),
        ("e".to_string(), "\u{fc}".to_string()),
    ];
    assert_eq!(
        final_glyph_names(&order, Some(&renames)),
        texts(&["a", "a.1", "a.2", "uni0061", "", "a.1.1"])
    );
}

fn post(meta: &StaticMetadata, order: &Vec<String>, cff_outlines: bool) -> PostTable {
    let underline = (rank(-100.4), rank(49.5));
    post_table(meta, order, cff_outlines, underline, &round, &fixed)
}

#[test]
fn a_static_font_with_a_charset_needs_no_names_in_post() {
    let order = texts(&[".notdef", "a"]);
    let mut meta = metadata();
    meta.italic_angle = rank(-12.5);
    meta.misc.is_fixed_pitch = Some(true);

    // a variable font has no charset
    let table = post(&meta, &order, true);
    assert_eq!(
        table.names,
        Some(PostNames {
            num_glyphs: 2,
            glyph_name_index: vec![0, 68],
            string_data: Vec::new(),
        })
    );
    assert_eq!(table.is_fixed_pitch, 1);
    assert_eq!(table.italic_angle, -0xc8000);
    assert_eq!((table.underline_position, table.underline_thickness), (-100, 50));

    meta.axes.clear();
    meta.misc.is_fixed_pitch = None;
    let table = post(&meta, &order, true);
    assert_eq!(table.names, None);
    assert_eq!(table.is_fixed_pitch, 0);
    let table = post(&meta, &order, false);
    assert!(table.names.is_some());
}

/// Names that are not standard are strings of the table, each of them once.
#[test]
fn post_holds_the_final_names() {
    let order = texts(&["one-two", "a", "custom", "also"]);
    let mut meta = metadata();
    assert_eq!(
        post(&meta, &texts(&["custom", "a", "custom", "also"]), false).names,
        Some(PostNames {
            num_glyphs: 4,
            glyph_name_index: vec![258, 68, 258, 259],
            string_data: texts(&["custom", "also"]),
        })
    );
    meta.postscript_names = Some(vec![("also".to_string(), "a".to_string())]);
    assert_eq!(
        post(&meta, &order, false).names,
        Some(PostNames {
            num_glyphs: 4,
            glyph_name_index: vec![258, 68, 259, 260],
            string_data: texts(&["onetwo", "custom", "a.1"]),
        })
    );
}

#[test]
fn works_say_what_they_read_and_make() {
    let post = create_post_work();
    assert_eq!(post.id, WorkId::Post);
    assert_eq!(
        post.reads,
        Access::Variants(vec![
            WorkId::StaticMetadata,
            WorkId::GlyphOrder,
            WorkId::GlobalMetrics
        ])
    );

    let cff = create_cff_work();
    assert_eq!(cff.id, WorkId::Cff);
    assert_eq!(cff.reads, Access::Unknown);

    let vertical = create_vertical_metrics_work();
    assert_eq!(vertical.id, WorkId::Vmtx);
    assert_eq!(
        vertical.writes,
        Access::Variants(vec![WorkId::Vmtx, WorkId::Vhea, WorkId::Vorg])
    );
    assert_eq!(vertical.also_completes, vec![WorkId::Vhea, WorkId::Vorg]);
}

#[test]
fn the_most_common_value_is_the_first_of_the_most_frequent() {
    assert_eq!(most_common(&Vec::new()), None);
    assert_eq!(most_common(&vec![3, 1, 1, 3]), Some(3));
    assert_eq!(most_common(&vec![3, 1, 1]), Some(1));
}

#[test]
fn vorg_lists_what_differs_from_the_default() {
    assert!(build_vorg_table(&Vec::new()).is_none());

    let vorg = build_vorg_table(&vec![(0, 880), (1, 900), (2, 900), (3, 870)]).unwrap();
    assert_eq!(vorg.default_vert_origin_y, 900);
    assert_eq!(
        vorg.vert_origin_y_metrics,
        vec![
            VertOriginYMetrics {
                glyph_index: 0,
                vert_origin_y: 880
            },
            VertOriginYMetrics {
                glyph_index: 3,
                vert_origin_y: 870
            },
        ]
    );

    // one origin needs no records, and of two the first seen is the default
    let vorg = build_vorg_table(&vec![(0, 880), (1, 880)]).unwrap();
    assert_eq!(vorg.vert_origin_y_metrics, Vec::new());
    let vorg = build_vorg_table(&vec![(0, 880), (1, 900)]).unwrap();
    assert_eq!(vorg.default_vert_origin_y, 880);
}

fn tall(name: &str, vertical_origin: i16, glyf_bbox: Option<Bbox>) -> VerticalGlyph {
    VerticalGlyph {
        name: name.to_string(),
        advance: 1000,
        vertical_origin,
        glyf_bbox,
    }
}

fn boxed(y_min: i16, y_max: i16) -> Option<Bbox> {
    Some(Bbox {
        x_min: 0,
        y_min,
        x_max: 100,
        y_max,
    })
}

fn row(side_bearing: i16, bounds_advance: Option<i32>) -> VerticalRow {
    VerticalRow {
        advance: 1000,
        side_bearing,
        bounds_advance,
    }
}

#[test]
fn vertical_bearings_come_from_the_box() {
    let glyphs = vec![tall("a", 880, boxed(-20, 700)), tall("space", 880, None)];
    assert_eq!(
        vertical_rows(&glyphs, &None).unwrap(),
        vec![row(180, Some(720)), row(880, None)]
    );
}

/// The side bearing comes from the rounded box, the height from the outer one,
/// and the box of a `glyf` outline plays no part.
#[test]
fn recorded_bounds_come_in_two_kinds() {
    let glyphs = vec![tall("a", 880, boxed(-20, 700)), tall("b", 880, None)];
    let cff = CffBounds {
        glyph_bounds: vec![Some([0, 0, 10, 500])],
        glyph_outer_bounds: vec![Some([0, -1, 10, 501])],
    };
    assert_eq!(
        vertical_rows(&glyphs, &Some(cff)).unwrap(),
        vec![row(380, Some(502)), row(880, None)]
    );
}

#[test]
fn recorded_bounds_have_to_fit() {
    let glyphs = vec![tall("a", 880, None)];
    let cff = CffBounds {
        glyph_bounds: vec![Some([0, 0, 10, 40000])],
        glyph_outer_bounds: vec![None],
    };
    let e = tables(true, &glyphs, Some(cff)).unwrap_err();
    assert!(matches!(&e, Error::OutOfBounds { value, .. } if value == "40000"), "{e:?}");
}

fn defaults() -> VheaDefaults {
    VheaDefaults {
        ascender: rank(499.5),
        descender: rank(-500.4),
        line_gap: rank(10.0),
        caret_slope_rise: rank(0.0),
        caret_slope_run: rank(1.0),
        caret_offset: rank(2.0),
    }
}

/// All the glyphs at the end that have the last advance share it.
fn collate(rows: &Vec<VerticalRow>) -> Metrics {
    let mut long = rows.len();
    while long > 1 && rows[long - 1].advance == rows[long - 2].advance {
        long -= 1;
    }
    let bearing = |row: &VerticalRow| row.side_bearing;
    Metrics {
        advance_max: rows.iter().map(|row| row.advance).max().unwrap_or(0),
        min_first_side_bearing: rows.iter().map(bearing).min().unwrap_or(0),
        min_second_side_bearing: -8,
        max_extent: 900,
        long_metrics: rows[..long].iter().map(|row| (row.advance, row.side_bearing)).collect(),
        first_side_bearings: rows[long..].iter().map(bearing).collect(),
    }
}

fn tables(
    build_vertical: bool,
    glyphs: &Vec<VerticalGlyph>,
    cff: Option<CffBounds>,
) -> Result<Option<VerticalTables>, Error> {
    vertical_tables(build_vertical, glyphs, &cff, defaults(), None, &round, &collate)
}

#[test]
fn only_a_vertical_font_has_vertical_tables() {
    let glyphs = vec![tall("a", 880, None), tall("b", 900, None)];
    assert!(tables(false, &glyphs, None).unwrap().is_none());
    let made = tables(true, &glyphs, None).unwrap().unwrap();
    assert!(made.vorg.is_none(), "that is for PostScript outlines");
    let cff = CffBounds {
        glyph_bounds: Vec::new(),
        glyph_outer_bounds: Vec::new(),
    };
    let made = tables(true, &glyphs, Some(cff)).unwrap().unwrap();
    assert_eq!(made.vorg.unwrap().vert_origin_y_metrics.len(), 1);
}

#[test]
fn vmtx_is_its_numbers_one_after_the_other() {
    let mut glyphs = vec![
        tall("a", 880, boxed(-20, 1000)),
        tall("b", 900, None),
        tall("c", -2, None),
    ];
    glyphs[0].advance = 0x1234;
    let made = tables(true, &glyphs, None).unwrap().unwrap();
    assert_eq!(
        made.vmtx,
        // 0x1234 and -120, 1000 and 900, -2
        vec![0x12, 0x34, 0xff, 0x88, 0x03, 0xe8, 0x03, 0x84, 0xff, 0xfe]
    );
    assert_eq!(made.vhea.number_of_long_ver_metrics, 2);
    assert_eq!(made.vhea.min_top_side_bearing, -120);
    assert_eq!(made.vhea.advance_height_max, 0x1234);
}

#[test]
fn advances_have_to_be_countable() {
    let glyphs: Vec<VerticalGlyph> = (0..0x10000)
        .map(|i| {
            let mut glyph = tall("a", 0, None);
            glyph.advance = (i % 2) as u16;
            glyph
        })
        .collect();
    assert_eq!(
        tables(true, &glyphs, None).unwrap_err(),
        Error::OutOfBounds {
            what: "number_of_long_metrics".to_string(),
            value: "65536".to_string(),
        }
    );
}

#[test]
fn feature_code_overrides_three_fields_of_vhea() {
    let mut metrics = Metrics {
        advance_max: 1000,
        min_first_side_bearing: -7,
        min_second_side_bearing: -8,
        max_extent: 900,
        long_metrics: vec![(0, 0); 65535],
        first_side_bearings: Vec::new(),
    };
    let vhea = build_vhea(defaults(), &round, &metrics, None).unwrap();
    assert_eq!((vhea.ascender, vhea.descender, vhea.line_gap), (500, -500, 10));
    assert_eq!(vhea.number_of_long_ver_metrics, 65535);
    assert_eq!((vhea.min_top_side_bearing, vhea.min_bottom_side_bearing), (-7, -8));
    assert_eq!((vhea.advance_height_max, vhea.y_max_extent), (1000, 900));

    let fea = FeaVhea {
        ascender: 1,
        descender: 2,
        line_gap: 3,
    };
    let vhea = build_vhea(defaults(), &round, &metrics, Some(fea)).unwrap();
    assert_eq!((vhea.ascender, vhea.descender, vhea.line_gap), (1, 2, 3));
    assert_eq!((vhea.caret_slope_run, vhea.caret_offset), (1, 2));

    metrics.long_metrics.push((0, 0));
    assert_eq!(
        build_vhea(defaults(), &round, &metrics, None).unwrap_err(),
        Error::OutOfBounds {
            what: "number_of_long_metrics".to_string(),
            value: "65536".to_string(),
        }
    );
}

fn region(peak: f64) -> VariationRegion {
    let tent = Tent {
        min: rank(0.0),
        peak: rank(peak),
        max: rank(peak),
    };
    VariationRegion {
        tents: vec![(WGHT, tent)],
    }
}

/// The difference to the first advance, for every place.
fn differences(
    places: &Vec<Location>,
    advances: &Vec<(Location, Real)>,
) -> Result<Vec<(VariationRegion, bool, i16)>, String> {
    let value = unrank;
    if places.len() != advances.len() {
        return Err("a place too many".to_string());
    }
    let first = value(advances[0].1);
    Ok(advances
        .iter()
        .map(|(at, advance)| {
            let peak = value(at.get(WGHT).unwrap());
            (region(peak), at.is_default(), (value(*advance) - first) as i16)
        })
        .collect())
}

fn sources(advances: &[(f64, f64)]) -> Vec<(Location, Real)> {
    advances.iter().map(|(at, a)| (wght(*at), rank(*a))).collect()
}

#[test]
fn glyphs_with_places_of_their_own_get_a_model_of_their_own() {
    let places = vec![wght(0.0), wght(1.0), wght(0.5)];
    let mut deltas = AdvanceDeltas::new(&metadata(), &places);
    let name = "a".to_string();

    let two = sources(&[(1.0, 600.0), (0.0, 500.0)]);
    deltas.add(&name, &two, &differences).unwrap();
    assert!(deltas.is_single_model(), "the order of masters does not count");
    deltas.add(&name, &sources(&[(0.0, 500.0)]), &differences).unwrap();
    let three = sources(&[(0.0, 500.0), (0.5, 540.0), (1.0, 600.0)]);
    deltas.add(&name, &three, &differences).unwrap();
    deltas.add(&name, &three, &differences).unwrap();

    assert_eq!(deltas.models.len(), 2);
    assert!(!deltas.is_single_model());
    assert_eq!(
        deltas.deltas[1..3],
        [Vec::new(), vec![(region(0.5), 40), (region(1.0), 100)]],
        "the default region is left out"
    );
    assert_eq!(deltas.deltas.len(), 4);

    let fail = |_: &Vec<Location>, _: &Vec<(Location, Real)>| Err("no model".to_string());
    assert_eq!(
        deltas.add(&name, &three, &fail).unwrap_err(),
        Error::GlyphDeltaError("a".to_string(), "no model".to_string())
    );
    assert_eq!(deltas.deltas.len(), 4);
}

/// A leading `.notdef` that does not vary is made to, everywhere.
#[test]
fn a_leading_notdef_is_dense() {
    let places = vec![wght(0.0), wght(1.0), wght(0.5)];
    let mut deltas = AdvanceDeltas::new(&metadata(), &places);
    let notdef = ".notdef".to_string();
    let lone = sources(&[(0.0, 500.0)]);

    deltas.add(&notdef, &lone, &differences).unwrap();
    assert_eq!(deltas.deltas[0], vec![(region(1.0), 0), (region(0.5), 0)]);
    // but not further down
    deltas.add(&notdef, &lone, &differences).unwrap();
    assert_eq!(deltas.deltas[1], Vec::new());
}

fn origins(name: &str, sources: &[(f64, i16)]) -> OriginGlyph {
    OriginGlyph {
        name: name.to_string(),
        sources: sources.iter().map(|(at, o)| (wght(*at), *o)).collect(),
        default_origins: vec![800, 850],
    }
}

#[test]
fn a_vertical_origin_is_never_missing() {
    let masters = vec![wght(0.0), wght(1.0)];
    let glyphs = vec![
        origins(".notdef", &[(0.0, 880)]),
        origins("a", &[(0.0, 880), (1.0, 900)]),
        origins("b", &[(0.0, 870)]),
        origins("c", &[(0.0, 870), (1.0, 900)]),
    ];
    let axes = vec![WGHT];
    assert_eq!(
        dense_origins(&glyphs, &axes, &masters),
        vec![
            // drawn in every master, with its own metrics
            vec![800, 850],
            vec![880, 900],
            // the most common there
            vec![870, 900],
            vec![870, 900],
        ]
    );
    assert_eq!(
        dense_origins(&vec![origins("a", &[(0.0, 880)])], &axes, &masters),
        vec![vec![880, 0]],
        "nobody has one there"
    );
}

#[test]
fn vertical_origins_vary_through_every_master() {
    let masters = vec![wght(0.0), wght(1.0)];
    let glyphs = vec![
        origins("a", &[(0.0, 880), (1.0, 900)]),
        origins("b", &[(0.0, 870)]),
    ];
    let axes = vec![WGHT];
    let take = |row: &Vec<i16>| {
        Ok(vec![
            (region(0.0), true, row[0]),
            (region(1.0), false, row[1] - row[0]),
        ])
    };
    let found = VerticalOriginDeltas::new(&glyphs, &axes, &masters, &take).unwrap();
    assert_eq!(
        found.deltas,
        vec![vec![(region(1.0), 20)], vec![(region(1.0), 30)]]
    );

    let fail = |row: &Vec<i16>| match row[0] {
        870 => Err("no model".to_string()),
        _ => Ok(Vec::new()),
    };
    let e = VerticalOriginDeltas::new(&glyphs, &axes, &masters, &fail).unwrap_err();
    assert_eq!(
        e,
        Error::GlyphDeltaError("b".to_string(), "no model".to_string())
    );

    // the first in glyph order is reported, whatever comes after it
    let fail = |row: &Vec<i16>| match row[0] {
        880 => Err("first".to_string()),
        _ => Err("second".to_string()),
    };
    let e = VerticalOriginDeltas::new(&glyphs, &axes, &masters, &fail).unwrap_err();
    assert_eq!(
        e,
        Error::GlyphDeltaError("a".to_string(), "first".to_string())
    );
}
