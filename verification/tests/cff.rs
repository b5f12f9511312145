use fontc::cff::{
    bbox_from_cff, contours_to_draw, drop_explicit_closing_lines, encode_decomposed,
    normalize_string_for_postscript, postscript_string, private_dict_values, recorded_bounds,
    top_dict_values, Bbox, PathEl, PathPoint, PrivateDictValues,
};
use fontc::cff_build::{build_cff, outer_bounds, CffFont, Charstring, OutlineArithmetic};
use fontc::coords::{Axis, CoordConverter, Location, Tag};
use fontc::error::Error;
use fontc::glyph::{Component, GlyphInstance};
use fontc::static_metadata::{
    NameId, NameKey, PostscriptSettings, StaticMetadata, COPYRIGHT_NOTICE, FAMILY_NAME,
    POSTSCRIPT_NAME, SUBFAMILY_NAME, TRADEMARK, TYPOGRAPHIC_FAMILY_NAME,
    TYPOGRAPHIC_SUBFAMILY_NAME,
};

/// The rank of a number.
fn rank(x: f64) -> i64 {
    let magnitude = (x.to_bits() & 0x7fff_ffff_ffff_ffff) as i64;
    if x.is_sign_negative() {
        -magnitude
    } else {
        magnitude
    }
}

fn unrank(r: i64) -> f64 {
    let magnitude = f64::from_bits(r.unsigned_abs());
    if r < 0 {
        -magnitude
    } else {
        magnitude
    }
}

fn round(x: i64) -> i32 {
    (unrank(x) + 0.5).floor() as i32
}

fn floor(x: i64) -> i32 {
    unrank(x).floor() as i32
}

fn ceil(x: i64) -> i32 {
    unrank(x).ceil() as i32
}

/// Three quarters of a unit over the tallest blue.
fn blue_scale(blue_values: &Vec<i64>, other_blues: &Vec<i64>) -> i64 {
    let tallest = blue_values
        .chunks_exact(2)
        .chain(other_blues.chunks_exact(2))
        .map(|pair| (unrank(pair[1]) - unrank(pair[0])).abs())
        .fold(0.0f64, f64::max);
    rank(if tallest != 0.0 {
        3.0 / (4.0 * tallest)
    } else {
        0.039625
    })
}

/// Settings with their numbers themselves.
#[derive(Default)]
struct Settings {
    blue_values: Vec<f64>,
    other_blues: Vec<f64>,
    blue_scale: Option<f64>,
    blue_shift: Option<f64>,
    blue_fuzz: Option<f64>,
    stem_snap_h: Vec<f64>,
    stem_snap_v: Vec<f64>,
    force_bold: Option<bool>,
    default_width_x: Option<f64>,
    nominal_width_x: Option<f64>,
}

fn private(ps: Settings) -> PrivateDictValues {
    let all = |values: &[f64]| values.iter().map(|v| rank(*v)).collect::<Vec<_>>();
    private_dict_values(
        &PostscriptSettings {
            blue_values: all(&ps.blue_values),
            other_blues: all(&ps.other_blues),
            blue_scale: ps.blue_scale.map(rank),
            blue_shift: ps.blue_shift.map(rank),
            blue_fuzz: ps.blue_fuzz.map(rank),
            stem_snap_h: all(&ps.stem_snap_h),
            stem_snap_v: all(&ps.stem_snap_v),
            force_bold: ps.force_bold,
            default_width_x: ps.default_width_x.map(rank),
            nominal_width_x: ps.nominal_width_x.map(rank),
            ..Default::default()
        },
        &round,
        &blue_scale,
    )
}

/// The parenthesised URL in a copyright loses its brackets and both slashes.
#[test]
fn postscript_string_strips_bracketing_and_slashes() {
    assert_eq!(
        postscript_string(Some(
            "Copyright 2024 The Tac One Project Authors \
             (https://github.com/Afrotype/tac)"
                .to_string()
        )),
        Some(
            "Copyright 2024 The Tac One Project Authors \
             https:github.comAfrotypetac"
                .to_string()
        )
    );
}

#[test]
fn postscript_string_replaces_copyright_sign_before_normalizing() {
    // the © must become "Copyright", not the "?" it would decompose to
    assert_eq!(
        postscript_string(Some("\u{00a9} 2024 Someone".to_string())),
        Some("Copyright 2024 Someone".to_string())
    );
    assert_eq!(postscript_string(None), Some(String::new()));
}

#[test]
fn postscript_string_decomposes_to_ascii() {
    // an all-ASCII decomposition is substituted whole
    assert_eq!(normalize_string_for_postscript("\u{2122}\u{fb01}"), "TMfi");
    // otherwise it is ASCII-encoded with one '?' per stranded character,
    // so an accented letter keeps its base letter *and* gains a '?'
    assert_eq!(normalize_string_for_postscript("caf\u{e9}"), "cafe?");
    assert_eq!(normalize_string_for_postscript("na\u{ef}ve"), "nai?ve");
    // no decomposition at all: one '?' for the character itself
    assert_eq!(normalize_string_for_postscript("\u{65e5}\u{672c}"), "??");
    // curly quotes and dashes are common in copyright strings
    assert_eq!(
        normalize_string_for_postscript("\u{2014}it\u{2019}s"),
        "?it?s"
    );
    // NBSP decomposes to a plain space, and spaces survive
    assert_eq!(normalize_string_for_postscript("a\u{a0}b c"), "a b c");
    // a decomposition may bring exception characters back; they stay
    assert_eq!(normalize_string_for_postscript("\u{2474}"), "(1)");
}

#[test]
fn plain_text_is_kept() {
    assert_eq!(normalize_string_for_postscript("Plain text, 1.0!"), "Plain text, 1.0!");
}

#[test]
fn no_hints_no_private_entries() {
    assert_eq!(private(Settings::default()), PrivateDictValues::default());
}

#[test]
fn blues_bring_scalars_with_ufo2ft_fallbacks() {
    let private = private(Settings {
        blue_values: vec![-10.5, 0.5, 699.5, 710.4],
        ..Default::default()
    });
    // half rounds toward +∞, even for negatives
    assert_eq!(private.blue_values, vec![-10, 1, 700, 710]);
    assert_eq!(private.blue_fuzz, Some(0));
    assert_eq!(private.blue_shift, Some(7));
    assert_eq!(private.force_bold, Some(false));
    // 3 / (4 × tallest zone), from the unrounded values: zone height 11
    assert_eq!(private.blue_scale, Some(rank(3.0 / 44.0)));
}

#[test]
fn explicit_blue_scalars_pass_through() {
    let private = private(Settings {
        other_blues: vec![-210.0, -200.0],
        blue_scale: Some(0.05),
        blue_shift: Some(8.0),
        blue_fuzz: Some(2.0),
        force_bold: Some(true),
        ..Default::default()
    });
    assert_eq!(private.blue_values, Vec::<i32>::new());
    assert_eq!(private.other_blues, vec![-210, -200]);
    assert_eq!(private.blue_scale, Some(rank(0.05)));
    assert_eq!(private.blue_shift, Some(8));
    assert_eq!(private.blue_fuzz, Some(2));
    assert_eq!(private.force_bold, Some(true));
}

#[test]
fn no_blues_means_no_blue_scalars() {
    // the scalars only appear when a blues array does
    let private = private(Settings {
        blue_fuzz: Some(2.0),
        blue_scale: Some(0.05),
        force_bold: Some(true),
        stem_snap_h: vec![30.0],
        stem_snap_v: vec![80.0],
        ..Default::default()
    });
    assert_eq!(private.blue_fuzz, None);
    assert_eq!(private.blue_scale, None);
    assert_eq!(private.blue_shift, None);
    assert_eq!(private.force_bold, None);
}

#[test]
fn stems_require_both_directions() {
    let only_v = private(Settings {
        stem_snap_v: vec![80.0, 90.0],
        ..Default::default()
    });
    assert_eq!(only_v.std_vw, None);
    assert!(only_v.stem_snap_v.is_empty());

    let both = private(Settings {
        stem_snap_h: vec![34.0, 30.0],
        stem_snap_v: vec![90.0, 80.0],
        ..Default::default()
    });
    // Std is the first element before sorting; the snap lists are sorted
    assert_eq!(both.std_hw, Some(34));
    assert_eq!(both.std_vw, Some(90));
    assert_eq!(both.stem_snap_h, vec![30, 34]);
    assert_eq!(both.stem_snap_v, vec![80, 90]);
}

#[test]
fn either_explicit_width_bypasses_optimization_for_both() {
    let private = private(Settings {
        default_width_x: Some(600.0),
        ..Default::default()
    });
    assert_eq!(private.default_width_x, Some(600));
    assert_eq!(private.nominal_width_x, Some(0));
}

#[test]
fn a_nominal_width_alone_brings_the_usual_default() {
    let private = private(Settings {
        nominal_width_x: Some(500.0),
        ..Default::default()
    });
    assert_eq!(private.default_width_x, Some(200));
    assert_eq!(private.nominal_width_x, Some(500));
}

fn point(x: i32, y: i32) -> PathPoint {
    PathPoint {
        x: rank(x as f64),
        y: rank(y as f64),
        rounded_x: x,
        rounded_y: y,
    }
}

fn triangle() -> Vec<PathEl> {
    vec![
        PathEl::MoveTo(point(0, 0)),
        PathEl::LineTo(point(10, 0)),
        PathEl::LineTo(point(10, 10)),
        PathEl::LineTo(point(0, 0)),
        PathEl::ClosePath,
    ]
}

#[test]
fn a_line_back_to_the_start_of_a_closed_contour_goes() {
    let mut expected = triangle();
    expected.remove(3);
    assert_eq!(drop_explicit_closing_lines(&triangle()), expected);
}

#[test]
fn an_open_contour_keeps_all_its_lines() {
    let mut open = triangle();
    open.pop();
    assert_eq!(drop_explicit_closing_lines(&open), open);
}

#[test]
fn a_line_that_ends_elsewhere_stays() {
    let mut path = triangle();
    path[3] = PathEl::LineTo(point(1, 0));
    assert_eq!(drop_explicit_closing_lines(&path), path);
}

#[test]
fn each_contour_has_a_start_of_its_own() {
    let mut path = triangle();
    path.extend([
        PathEl::MoveTo(point(5, 5)),
        PathEl::LineTo(point(0, 0)),
        PathEl::ClosePath,
    ]);
    let drawn = drop_explicit_closing_lines(&path);
    assert_eq!(drawn.len(), path.len() - 1);
    assert_eq!(drawn[5], PathEl::LineTo(point(0, 0)));
}

#[test]
fn only_a_made_up_notdef_keeps_its_closing_lines() {
    let notdef = ".notdef".to_string();
    let contours = vec![triangle()];
    assert_eq!(
        contours_to_draw(&notdef, 0, &contours, true),
        Ok(contours.clone())
    );
    assert_eq!(
        contours_to_draw(&notdef, 0, &contours, false).unwrap()[0].len(),
        4
    );
    let a = "a".to_string();
    assert_eq!(contours_to_draw(&a, 0, &contours, true).unwrap()[0].len(), 4);
}

#[test]
fn components_cannot_be_drawn() {
    let a = "a".to_string();
    assert_eq!(
        contours_to_draw(&a, 1, &Vec::new(), false),
        Err(Error::CffGlyphHasComponents(a.clone()))
    );
}

fn instance(width: f64, components: usize) -> GlyphInstance {
    GlyphInstance {
        width: rank(width),
        contours: vec![triangle()],
        components: (0..components)
            .map(|_| Component {
                base: "a".to_string(),
                transform: [0; 6],
                anchor: None,
            })
            .collect(),
        ..Default::default()
    }
}

/// A charstring of one byte for each path element, in a box as wide as there
/// are contours; nothing at all is not drawn.
fn draw(contours: &Vec<Vec<PathEl>>) -> Result<Charstring, String> {
    if contours.iter().any(|contour| contour.is_empty()) {
        return Err("nothing to draw".to_string());
    }
    Ok(Charstring {
        bytes: contours.iter().map(|contour| contour.len() as u8).collect(),
        bounds: match contours.len() {
            0 => None,
            n => Some([rank(-0.25), rank(0.25), rank(n as f64 + 0.25), rank(0.5)]),
        },
    })
}

fn build(
    meta: &StaticMetadata,
    order: &Vec<String>,
    instances: &Vec<GlyphInstance>,
    preliminary: &Vec<String>,
) -> Result<CffFont, Error> {
    let with = OutlineArithmetic {
        round,
        blue_scale,
        floor,
        ceil,
    };
    let underline = (rank(-100.4), rank(49.6));
    build_cff(meta, underline, order, instances, preliminary, &with, &draw)
}

#[test]
fn glyphs_are_drawn_in_glyph_order_under_their_final_names() {
    let order = vec![".notdef".to_string(), "a".to_string()];
    let mut meta = metadata(Vec::new(), &[(FAMILY_NAME, "Fam")]);
    meta.postscript_names = Some(vec![("a".to_string(), "uni0061".to_string())]);
    let instances = vec![instance(500.0, 0), instance(600.0, 0)];
    let font = build(&meta, &order, &instances, &vec!["a".to_string()]).unwrap();
    assert_eq!(font.postscript_name, "Fam-Regular");
    assert_eq!(font.top_dict.underline_position, -100);
    assert_eq!(font.top_dict.underline_thickness, 50);
    assert_eq!(font.private, PrivateDictValues::default());
    assert_eq!(font.glyphs.len(), 2);
    assert_eq!(font.glyphs[0].name, ".notdef");
    // the made-up outline keeps its closing line
    assert_eq!(font.glyphs[0].charstring, vec![triangle().len() as u8]);
    assert_eq!(font.glyphs[1].name, "uni0061");
    assert_eq!(font.glyphs[1].advance_width, rank(600.0));
    assert_eq!(font.glyphs[1].charstring, vec![4]);
    assert_eq!(font.glyph_bounds, vec![Some([0, 0, 1, 1]); 2]);
    assert_eq!(font.glyph_outer_bounds, vec![Some([-1, 0, 2, 1]); 2]);

    meta.postscript_names = None;
    let font = build(&meta, &order, &instances, &order).unwrap();
    assert_eq!(font.glyphs[0].charstring, vec![4]);
    assert_eq!(font.glyphs[1].name, "a");
}

#[test]
fn the_private_dict_is_that_of_the_default_master() {
    let mut meta = metadata(Vec::new(), &[]);
    let home = meta.default_location.clone();
    let mut settings = PostscriptSettings::unstated();
    settings.blue_values = vec![rank(-10.0), rank(0.0)];
    meta.postscript = vec![(home, settings)];
    let font = build(&meta, &Vec::new(), &Vec::new(), &Vec::new()).unwrap();
    assert_eq!(font.private.blue_values, vec![-10, 0]);
    assert_eq!(font.private.blue_scale, Some(rank(0.075)));
    assert_eq!(font.private.blue_shift, Some(7));
}

#[test]
fn the_first_glyph_with_components_is_reported() {
    let order = vec!["a".to_string(), "b".to_string(), "c".to_string()];
    let meta = metadata(Vec::new(), &[]);
    let instances = vec![instance(1.0, 0), instance(1.0, 2), instance(1.0, 1)];
    assert_eq!(
        build(&meta, &order, &instances, &order),
        Err(Error::CffGlyphHasComponents("b".to_string()))
    );
}

#[test]
fn a_glyph_that_cannot_be_drawn_is_an_error() {
    let order = vec!["a".to_string()];
    let mut bad = instance(1.0, 0);
    bad.contours.push(Vec::new());
    assert_eq!(
        build(&metadata(Vec::new(), &[]), &order, &vec![bad], &order),
        Err(Error::Charstring("nothing to draw".to_string()))
    );
}

#[test]
fn outer_bounds_grow_to_whole_units() {
    let exact = Some([rank(-0.5), rank(1.0), rank(2.25), rank(3.0)]);
    assert_eq!(outer_bounds(exact, &floor, &ceil), Some([-1, 1, 3, 3]));
    assert_eq!(outer_bounds(None, &floor, &ceil), None);
}

#[test]
fn an_all_zero_box_is_no_box() {
    assert_eq!(recorded_bounds(Some([0, 0, 0, 0])), None);
    assert_eq!(recorded_bounds(Some([0, 0, 0, 1])), Some([0, 0, 0, 1]));
    assert_eq!(recorded_bounds(None), None);
}

#[test]
fn a_box_has_to_fit() {
    let a = "a".to_string();
    assert_eq!(
        bbox_from_cff(&a, [-5, 0, 32767, 7]),
        Ok(Bbox {
            x_min: -5,
            y_min: 0,
            x_max: 32767,
            y_max: 7,
        })
    );
    match bbox_from_cff(&a, [-5, 0, 32768, 7]) {
        Err(Error::OutOfBounds { what, value }) => {
            assert!(what.contains('a'), "{what}");
            assert_eq!(value, "32768");
        }
        other => panic!("{other:?}"),
    }
}

#[test]
fn a_stranded_character_becomes_one_question_mark() {
    assert_eq!(encode_decomposed(&vec!['e', '\u{301}']), vec!['e', '?']);
    assert_eq!(encode_decomposed(&vec!['f', 'i']), vec!['f', 'i']);
}

fn metadata(axes: Vec<Axis>, names: &[(NameId, &str)]) -> StaticMetadata {
    let names = names
        .iter()
        .map(|(id, value)| (NameKey::new(*id, value), value.to_string()))
        .collect();
    let locations = vec![axes.iter().fold(Location::new(), |mut at, axis| {
        at.insert(axis.tag, 0);
        at
    })];
    StaticMetadata::new(
        1000,
        names,
        axes,
        Vec::new(),
        locations,
        None,
        rank(-12.0),
        None,
        false,
    )
}

#[test]
fn the_top_dict_reads_the_name_table() {
    let mut meta = metadata(
        Vec::new(),
        &[
            (FAMILY_NAME, "Old"),
            (TYPOGRAPHIC_FAMILY_NAME, "New Sans"),
            (SUBFAMILY_NAME, "Bold"),
            (TRADEMARK, "(TM) us"),
            (COPYRIGHT_NOTICE, "\u{a9} us"),
        ],
    );
    meta.misc.version_major = 2;
    meta.misc.version_minor = 7;
    let (name, top) = top_dict_values(&meta, -100, 50).unwrap();
    assert_eq!(name, "NewSans-Bold");
    assert_eq!(top.version.as_deref(), Some("2.7"));
    assert_eq!(top.notice.as_deref(), Some("TM us"));
    assert_eq!(top.copyright.as_deref(), Some("Copyright us"));
    assert_eq!(top.family_name.as_deref(), Some("New Sans"));
    assert_eq!(top.full_name.as_deref(), Some("New Sans Bold"));
    assert_eq!(top.weight, None);
    assert_eq!(top.italic_angle, rank(-12.0));
    assert_eq!((top.underline_position, top.underline_thickness), (-100, 50));
}

#[test]
fn stated_names_come_before_those_put_together() {
    let mut meta = metadata(
        Vec::new(),
        &[
            (FAMILY_NAME, "Fam"),
            (POSTSCRIPT_NAME, "Ps-Name"),
            (TYPOGRAPHIC_SUBFAMILY_NAME, "Light"),
        ],
    );
    let home = meta.default_location.clone();
    let mut settings = PostscriptSettings::unstated();
    settings.full_name = Some("Geo-Regular".to_string());
    settings.weight_name = Some("Light".to_string());
    meta.postscript = vec![(home, settings)];
    let (name, top) = top_dict_values(&meta, 0, 0).unwrap();
    assert_eq!(name, "Ps-Name");
    assert_eq!(top.full_name.as_deref(), Some("Geo-Regular"));
    assert_eq!(top.weight.as_deref(), Some("Light"));
}

#[test]
fn without_names_there_is_still_a_font_name() {
    let (name, top) = top_dict_values(&metadata(Vec::new(), &[]), 0, 0).unwrap();
    assert_eq!(name, "-Regular");
    assert_eq!(top.family_name, None);
    assert_eq!(top.full_name, None);
}

#[test]
fn a_font_that_varies_has_no_cff_table() {
    let (min, default, max) = (rank(400.0), rank(400.0), rank(700.0));
    let wght = Axis {
        name: "Weight".to_string(),
        tag: Tag::parse("wght").unwrap(),
        min,
        default,
        max,
        hidden: false,
        converter: CoordConverter::Unmapped { min, default, max },
        ui_label_name: "Weight".to_string(),
    };
    let meta = metadata(vec![wght], &[]);
    assert_eq!(top_dict_values(&meta, 0, 0), Err(Error::CffNotStatic));
    assert_eq!(
        build(&meta, &Vec::new(), &Vec::new(), &Vec::new()),
        Err(Error::CffNotStatic)
    );
}
