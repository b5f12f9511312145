//! Names, axes and settings that hold for the whole font.

use fontc::coords::{Axis, CoordConverter, Location, Real, Tag, TagProblem};
use fontc::static_metadata::{
    put_name, Condition, ConditionSet, FeatureWriterSpec, GlyphPredicateAttrs, MiscMetadata, NameKey,
    NamedInstance, Panose, PostscriptSettings, StaticMetadata, StyleMapStyle, VariationModel,
    BOLD, COMPATIBLE_FULL_NAME, COPYRIGHT_NOTICE, ENGLISH, FAMILY_NAME, FULL_NAME, ITALIC, OBLIQUE,
    POSTSCRIPT_NAME, REGULAR, SUBFAMILY_NAME, TRADEMARK, TYPOGRAPHIC_FAMILY_NAME,
    TYPOGRAPHIC_SUBFAMILY_NAME, UNIQUE_ID, USE_TYPO_METRICS, VARIATIONS_POSTSCRIPT_NAME_PREFIX,
    VERSION_STRING, WWS, WWS_FAMILY_NAME, WWS_SUBFAMILY_NAME,
};
use fontc::text::title_case;
use write_fonts::tables::os2::SelectionFlags;
use write_fonts::types::NameId;

const WGHT: Tag = Tag(0x77676874);

/// The rank of a number among all doubles.
fn rank(x: f64) -> Real {
    let magnitude = (x.to_bits() & !(1 << 63)) as i64;
    if x.is_sign_negative() {
        -magnitude
    } else {
        magnitude
    }
}

fn ranks(values: &[f64]) -> Vec<Real> {
    values.iter().copied().map(rank).collect()
}

fn at(pos: f64) -> Location {
    Location::from_pairs(&vec![(WGHT, rank(pos))])
}

fn axis(min: f64, default: f64, max: f64) -> Axis {
    let (min, default, max) = (rank(min), rank(default), rank(max));
    Axis {
        name: "Weight".to_string(),
        tag: WGHT,
        min,
        default,
        max,
        hidden: false,
        converter: CoordConverter::Unmapped { min, default, max },
        ui_label_name: "Weight".to_string(),
    }
}

fn bmp_name(id: u16, value: &str) -> (NameKey, String) {
    (NameKey::new_bmp_only(id), value.to_string())
}

fn named(name: &str, pos: f64) -> NamedInstance {
    NamedInstance {
        name: name.to_string(),
        location: at(pos),
        ..Default::default()
    }
}

fn test_static_metadata() -> StaticMetadata {
    let weight = axis(400.0, 400.0, 700.0);
    StaticMetadata {
        units_per_em: 1000,
        all_source_axes: vec![weight.clone(), axis(400.0, 400.0, 400.0)],
        axes: vec![weight],
        named_instances: vec![named("Nobody", 100.0)],
        variation_model: VariationModel {
            locations: vec![at(-1.0), at(0.0), at(1.0)],
            axis_order: vec![WGHT],
        },
        default_location: at(0.0),
        names: vec![
            bmp_name(TYPOGRAPHIC_FAMILY_NAME, "Fam"),
            bmp_name(FAMILY_NAME, "Fam"),
            bmp_name(256, "Weight"),
            bmp_name(257, "Nobody"),
        ],
        postscript_names: Some(vec![("lhs".to_string(), "rhs".to_string())]),
        italic_angle: 0,
        misc: MiscMetadata {
            fs_type: None,
            is_fixed_pitch: None,
            selection_flags: 0,
            vendor_id: Tag(u32::from_be_bytes(*b"DUCK")),
            raw_vendor_id: None,
            version_major: 42,
            version_minor: 24,
            head_flags: 0,
            lowest_rec_ppm: 42,
            created: None,
            family_class: None,
            panose: None,
            instance_panose: None,
            unicode_range_bits: None,
            codepage_range_bits: None,
            meta_table: None,
            us_weight_class: None,
            us_width_class: None,
            gasp: Vec::new(),
            feature_generation: Some(vec![FeatureWriterSpec {
                writer: "kern".to_string(),
                mode: "append".to_string(),
                features: None,
            }]),
        },
        number_values: Vec::new(),
        glyph_predicate_attrs: Some(vec![(
            "a".to_string(),
            GlyphPredicateAttrs {
                category: Some("Letter".to_string()),
                case: Some("lower".to_string()),
                unicode: Some("0061".to_string()),
                ..Default::default()
            },
        )]),
        postscript: vec![
            (
                at(0.0),
                PostscriptSettings {
                    blue_values: ranks(&[-10.0, 0.0, 700.0, 710.0]),
                    blue_scale: Some(rank(0.05)),
                    weight_name: Some("Chonky".to_string()),
                    ..Default::default()
                },
            ),
            (
                at(1.0),
                PostscriptSettings {
                    blue_values: ranks(&[-12.0, 0.0, 720.0, 734.0]),
                    stem_snap_v: ranks(&[120.0]),
                    weight_name: Some("Chonkier".to_string()),
                    ..Default::default()
                },
            ),
        ],
        variations: None,
        build_vertical: false,
    }
}

#[test]
fn static_metadata_smallest_id() {
    let static_metadata = test_static_metadata();
    let reverse_names = static_metadata.reverse_names();
    // the first is always the smallest
    let fam = reverse_names.iter().find(|(name, _)| name == "Fam").unwrap();
    assert_eq!(fam.1.first(), Some(&FAMILY_NAME));
    assert_eq!(fam.1, vec![FAMILY_NAME, TYPOGRAPHIC_FAMILY_NAME]);
}

#[test]
fn postscript_at_master_locations() {
    let static_metadata = test_static_metadata();
    let weight_at = |pos: f64| static_metadata.postscript_at(&at(pos)).weight_name;

    assert_eq!(weight_at(0.0).as_deref(), Some("Chonky"));
    assert_eq!(weight_at(1.0).as_deref(), Some("Chonkier"));
    // the default master is what a single-master table gets
    assert_eq!(
        static_metadata.postscript_default().weight_name.as_deref(),
        Some("Chonky")
    );
}

#[test]
fn postscript_at_falls_back() {
    let mut static_metadata = test_static_metadata();

    // a location with no entry of its own gets the default master's
    assert_eq!(
        static_metadata.postscript_at(&at(-1.0)).weight_name.as_deref(),
        Some("Chonky")
    );

    // a source with no PostScript data at all gets defaults
    static_metadata.postscript.clear();
    assert_eq!(
        static_metadata.postscript_default(),
        PostscriptSettings::default()
    );
}

#[test]
fn condition_set_sorted() {
    let on = |tag: &[u8; 4]| Condition::new(Tag(u32::from_be_bytes(*tag)), None, None);
    let one = on(b"test");
    let two = on(b"blah");
    let tre = on(b"derp");

    assert_eq!(
        ConditionSet::from_conditions(vec![one, two, tre]),
        ConditionSet::from_conditions(vec![two, tre, one])
    );
}

#[test]
fn a_copy_of_a_set_is_that_set() {
    let bounded = |min, max| Condition::new(WGHT, min, max);
    let set = ConditionSet::from_conditions(vec![
        bounded(Some(2), None),
        bounded(Some(1), Some(9)),
        bounded(None, Some(5)),
        bounded(Some(1), None),
    ]);
    assert_eq!(
        *set.conditions(),
        vec![
            bounded(None, Some(5)),
            bounded(Some(1), None),
            bounded(Some(1), Some(9)),
            bounded(Some(2), None),
        ]
    );
    assert_eq!(set.clone(), set);
}

#[test]
fn names_are_numbered_as_the_name_table_numbers_them() {
    for (ours, theirs) in [
        (COPYRIGHT_NOTICE, NameId::COPYRIGHT_NOTICE),
        (FAMILY_NAME, NameId::FAMILY_NAME),
        (SUBFAMILY_NAME, NameId::SUBFAMILY_NAME),
        (UNIQUE_ID, NameId::UNIQUE_ID),
        (FULL_NAME, NameId::FULL_NAME),
        (VERSION_STRING, NameId::VERSION_STRING),
        (POSTSCRIPT_NAME, NameId::POSTSCRIPT_NAME),
        (TRADEMARK, NameId::TRADEMARK),
        (TYPOGRAPHIC_FAMILY_NAME, NameId::TYPOGRAPHIC_FAMILY_NAME),
        (TYPOGRAPHIC_SUBFAMILY_NAME, NameId::TYPOGRAPHIC_SUBFAMILY_NAME),
        (COMPATIBLE_FULL_NAME, NameId::COMPATIBLE_FULL_NAME),
        (WWS_FAMILY_NAME, NameId::WWS_FAMILY_NAME),
        (WWS_SUBFAMILY_NAME, NameId::WWS_SUBFAMILY_NAME),
        (
            VARIATIONS_POSTSCRIPT_NAME_PREFIX,
            NameId::VARIATIONS_POSTSCRIPT_NAME_PREFIX,
        ),
    ] {
        assert_eq!(ours, theirs.to_u16());
    }
}

#[test]
fn selection_flags_are_the_bits_of_the_table() {
    for (ours, theirs) in [
        (ITALIC, SelectionFlags::ITALIC),
        (BOLD, SelectionFlags::BOLD),
        (REGULAR, SelectionFlags::REGULAR),
        (USE_TYPO_METRICS, SelectionFlags::USE_TYPO_METRICS),
        (WWS, SelectionFlags::WWS),
        (OBLIQUE, SelectionFlags::OBLIQUE),
    ] {
        assert_eq!(ours, theirs.bits());
    }
}

#[test]
fn styles_are_spelled_in_any_case() {
    for style in [
        StyleMapStyle::Regular,
        StyleMapStyle::Bold,
        StyleMapStyle::Italic,
        StyleMapStyle::BoldItalic,
    ] {
        assert_eq!(StyleMapStyle::parse(style.to_name()), Some(style));
        let loud = style.to_name().to_uppercase();
        assert_eq!(StyleMapStyle::parse(&loud), Some(style), "{loud}");
    }
    assert_eq!(StyleMapStyle::parse("Black"), None);
    assert_eq!(StyleMapStyle::from_lowercase("Bold"), None);
    assert_eq!(StyleMapStyle::from_flags(true, true), StyleMapStyle::BoldItalic);
    assert_eq!(StyleMapStyle::BoldItalic.selection_flags(), BOLD | ITALIC);
    assert_eq!(StyleMapStyle::Regular.selection_flags(), REGULAR);
}

#[test]
fn characters_beyond_the_plane_need_another_encoding() {
    let bmp = NameKey::new(FAMILY_NAME, "\u{ffff}");
    assert_eq!(bmp, NameKey::new_bmp_only(FAMILY_NAME));
    assert_eq!(bmp.lang_id, ENGLISH);
    let beyond = NameKey::new(FAMILY_NAME, "a\u{10000}");
    assert_ne!(beyond.encoding_id, bmp.encoding_id);
    let german = NameKey::new_with_lang(FAMILY_NAME, "a", 0x407);
    assert_eq!((german.lang_id, german.encoding_id), (0x407, bmp.encoding_id));
}

#[test]
fn merging_keeps_the_digits_masters_agree_on() {
    let one = Panose::from_digits([2, 11, 5, 2, 4, 5, 4, 2, 2, 4]);
    assert_eq!(one, Panose::from([2, 11, 5, 2, 4, 5, 4, 2, 2, 4]));
    assert_eq!(one.midline, 2);
    assert_eq!(one.to_bytes(), [2, 11, 5, 2, 4, 5, 4, 2, 2, 4]);
    let two = Panose::from_digits([2, 11, 8, 2, 4, 5, 4, 2, 2, 3]);
    assert_eq!(
        Panose::merged_for_instance(&vec![one, two]),
        Some(Panose::from_digits([2, 11, 0, 2, 4, 5, 4, 2, 2, 0]))
    );
    assert_eq!(Panose::merged_for_instance(&vec![one]), Some(one));
    assert_eq!(Panose::merged_for_instance(&Vec::new()), None);
    assert_eq!(one.digits(), one.to_bytes());
    let apart = Panose::from_digits([1, 0, 0, 0, 0, 0, 0, 0, 0, 0]);
    let other = Panose::from_digits([2, 0, 0, 0, 0, 0, 0, 0, 0, 0]);
    assert_eq!(Panose::merged_for_instance(&vec![apart, other]), None);
}

fn built(names: Vec<(NameKey, String)>, instances: Vec<NamedInstance>) -> StaticMetadata {
    StaticMetadata::new(
        1000,
        names,
        vec![axis(400.0, 400.0, 700.0)],
        instances,
        vec![at(0.0), at(1.0)],
        None,
        0,
        None,
        false,
    )
}

#[test]
fn axes_and_instances_mint_names() {
    let medium = NamedInstance {
        postscript_name: Some("Fam-Medium".to_string()),
        ..named("Medium", 550.0)
    };
    let meta = built(
        vec![bmp_name(FAMILY_NAME, "Fam"), bmp_name(SUBFAMILY_NAME, "Regular")],
        vec![
            // its name has a record already
            named("Regular", 400.0),
            medium,
            // out of range, so fvar never lists it
            named("Heavy", 900.0),
        ],
    );
    let minted: Vec<_> = meta
        .names
        .iter()
        .filter(|(key, _)| key.name_id > 255)
        .map(|(key, value)| (key.name_id, value.as_str()))
        .collect();
    assert_eq!(minted, [(256, "Weight"), (257, "Medium"), (258, "Fam-Medium")]);
    let listed: Vec<_> = meta.fvar_instances().iter().map(|i| i.name.as_str()).collect();
    assert_eq!(listed, ["Regular", "Medium"]);
    assert_eq!(meta.named_instances.len(), 3);
}

#[test]
fn point_axes_alone_make_no_font_variable() {
    let meta = StaticMetadata::new(
        1000,
        Vec::new(),
        vec![axis(400.0, 400.0, 400.0)],
        vec![named("Regular", 400.0)],
        vec![at(0.0)],
        None,
        0,
        None,
        false,
    );
    assert!(meta.axes.is_empty());
    assert_eq!(meta.all_source_axes.len(), 1);
    assert!(meta.named_instances.is_empty());
    assert!(meta.names.is_empty());
    assert_eq!(meta.default_location(), &at(0.0));
    assert!(meta.axis(&WGHT).is_none());
}

#[test]
fn an_axis_is_found_by_its_tag() {
    let meta = test_static_metadata();
    assert_eq!(meta.axis(&WGHT).map(|a| a.max), Some(rank(700.0)));
    assert!(meta.axis(&Tag(0)).is_none());
}

#[test]
fn tags_are_four_printable_bytes() {
    assert_eq!(Tag::parse("wght"), Ok(WGHT));
    assert_eq!(Tag::parse("ab"), Ok(Tag(u32::from_be_bytes(*b"ab  "))));
    assert!(matches!(Tag::parse("weight"), Err(TagProblem::InvalidLength(6))));
    assert!(matches!(Tag::parse(""), Err(TagProblem::InvalidLength(0))));
    assert_eq!(
        TagProblem::ByteAfterSpace { pos: 2 }.message(),
        "Non-space character after first space"
    );
    assert_eq!(TagProblem::Other.message(), "Invalid tag");
    assert!(Tag::parse("wg\u{e9}").is_err());
    assert!(Tag::parse("a b ").is_err());
}

#[test]
fn locations_keep_one_position_per_axis() {
    let mut place = Location::from_pairs(&vec![(WGHT, 1), (Tag(5), 2), (WGHT, 3)]);
    assert_eq!(place.pairs(), vec![(Tag(5), 2), (WGHT, 3)]);
    place.insert(Tag(5), 7);
    assert_eq!(place.get(Tag(5)), Some(7));
    assert_eq!(place.get(Tag(6)), None);
    assert_eq!(place.subset_axes(&vec![WGHT, Tag(6)]).pairs(), vec![(WGHT, 3)]);
    assert_eq!(
        place.fit_to_axes(&vec![WGHT, Tag(6)]).pairs(),
        vec![(Tag(6), 0), (WGHT, 3)]
    );
    assert!(!place.is_default());
    assert!(Location::new().is_default());
}

/// Any spelling of the four styles links; another style is only shown, in title
/// case.
#[test]
fn an_instance_links_only_the_four_styles() {
    let styled = |name: &str| NamedInstance {
        style_map_style_name: Some(name.to_string()),
        ..Default::default()
    };
    let linked = styled("BOLD Italic");
    assert_eq!(linked.style_map_style(), Some(StyleMapStyle::BoldItalic));
    assert_eq!(linked.style_map_style_display().as_deref(), Some("Bold Italic"));
    let black = styled("BLACK");
    assert_eq!(black.style_map_style(), None);
    assert_eq!(black.style_map_style_display().as_deref(), Some("Black"));
    let unstated = NamedInstance::default();
    assert_eq!(unstated.style_map_style(), None);
    assert_eq!(unstated.style_map_style_display(), None);
}

/// A word begins in title case, which is not always capitals, and goes on in
/// small letters.
#[test]
fn words_begin_in_title_case() {
    for (raw, wanted) in [
        ("\u{df}eta", "Sseta"),
        ("BLACK", "Black"),
        ("black italic", "Black Italic"),
        ("they're", "They'Re"),
        ("x1y", "X1Y"),
        ("\u{1c6} \u{1c5} \u{1c4}A", "\u{1c5} \u{1c5} \u{1c5}a"),
        ("\u{149}a", "\u{2bc}Na"),
        (
            "\u{39f}\u{394}\u{39f}\u{3a3} \u{3a3}\u{391}\u{3a3} \u{3a3}",
            "\u{39f}\u{3b4}\u{3bf}\u{3c2} \u{3a3}\u{3b1}\u{3c2} \u{3a3}",
        ),
        (
            "\u{391}\u{3a3}\u{301}\u{392} \u{391}\u{3a3}\u{301}",
            "\u{391}\u{3c3}\u{301}\u{392} \u{391}\u{3c2}\u{301}",
        ),
        ("\u{2b0}\u{3a3} \u{391}\u{2b0}\u{3a3}", "\u{2b0}\u{3c3} \u{391}\u{2b0}\u{3c2}"),
        ("\u{6f22}\u{5b57}abc a\u{6f22}b", "\u{6f22}\u{5b57}Abc A\u{6f22}B"),
        ("\u{10d2}\u{10d0}\u{10db}\u{10d0}", "\u{10d2}\u{10d0}\u{10db}\u{10d0}"),
        ("\u{1fb3} \u{1fbc}A \u{1f80} \u{1f88}a", "\u{1fbc} \u{1fbc}a \u{1f88} \u{1f88}a"),
        ("\u{1fc2} \u{1fb7}a", "\u{1fca}\u{345} \u{391}\u{342}\u{345}a"),
        ("\u{fb01}ne \u{fb03}", "Fine Ffi"),
        ("\u{aa}b 1\u{aa}B", "\u{aa}b 1\u{aa}b"),
        ("\u{130}X A\u{130}", "\u{130}x Ai\u{307}"),
        ("\u{345}a", "\u{399}a"),
        ("\u{390}a \u{1f0}", "\u{399}\u{308}\u{301}a J\u{30c}"),
    ] {
        assert_eq!(title_case(raw), wanted, "of '{raw}'");
    }
}

#[test]
fn the_case_of_a_style_does_not_count() {
    for raw in ["bold italic", " Bold \u{a0}", "Regular\u{3000}", "\u{130}talic", "heavy", ""] {
        assert_eq!(
            StyleMapStyle::parse(&raw.to_ascii_uppercase()),
            StyleMapStyle::parse(raw),
            "of '{raw}'"
        );
    }
    assert_eq!(StyleMapStyle::parse(" BOLD \u{a0}"), Some(StyleMapStyle::Bold));
    assert_eq!(StyleMapStyle::parse("\u{130}talic"), None);
}

/// Setting a record again replaces it, and minting leaves every key there once.
#[test]
fn a_key_has_one_record() {
    let mut names = Vec::new();
    let key = NameKey::new(FAMILY_NAME, "A");
    put_name(&mut names, key, &"A".to_string());
    put_name(&mut names, NameKey::new(SUBFAMILY_NAME, "B"), &"B".to_string());
    put_name(&mut names, key, &"C".to_string());
    assert_eq!(names.len(), 2);
    assert_eq!(names[0], (key, "C".to_string()));

    let names = test_static_metadata().names;
    for (i, (key, _)) in names.iter().enumerate() {
        assert!(names[..i].iter().all(|(other, _)| other != key));
    }
}
