//! Global font info that cannot vary across the design space.

use crate::coords;
use crate::coords::{Axis, Location, Real, Tag};
use crate::lookup;
use crate::text;
use vstd::prelude::*;

verus! {

/// The glyph attributes a predicate token can compare.
///
/// Every value is the string the source stored, `None` when it stored nothing.
#[derive(Debug, Default, PartialEq, Eq)]
pub struct GlyphPredicateAttrs {
    /// `category = Letter;`
    pub category: Option<String>,
    /// `subCategory = Ligature;`
    pub sub_category: Option<String>,
    /// `case = lower;`
    pub case: Option<String>,
    /// The glyph's first codepoint, in at least four hex digits.
    pub unicode: Option<String>,
}

impl Clone for GlyphPredicateAttrs {
    fn clone(&self) -> (r: GlyphPredicateAttrs)
        ensures
            r == *self,
    {
        GlyphPredicateAttrs {
            category: copy_name(&self.category),
            sub_category: copy_name(&self.sub_category),
            case: copy_name(&self.case),
            unicode: copy_name(&self.unicode),
        }
    }
}

/// Which record of the name table.
pub type NameId = u16;

pub const COPYRIGHT_NOTICE: NameId = 0;

pub const FAMILY_NAME: NameId = 1;

pub const SUBFAMILY_NAME: NameId = 2;

pub const UNIQUE_ID: NameId = 3;

pub const FULL_NAME: NameId = 4;

pub const VERSION_STRING: NameId = 5;

pub const POSTSCRIPT_NAME: NameId = 6;

pub const TRADEMARK: NameId = 7;

pub const TYPOGRAPHIC_FAMILY_NAME: NameId = 16;

pub const TYPOGRAPHIC_SUBFAMILY_NAME: NameId = 17;

pub const COMPATIBLE_FULL_NAME: NameId = 18;

pub const WWS_FAMILY_NAME: NameId = 21;

pub const WWS_SUBFAMILY_NAME: NameId = 22;

pub const VARIATIONS_POSTSCRIPT_NAME_PREFIX: NameId = 25;

/// English, United States.
pub const ENGLISH: u16 = 0x409;

/// Bits of `fsSelection`.
pub type SelectionFlags = u16;

pub const ITALIC: SelectionFlags = 0x0001;

pub const BOLD: SelectionFlags = 0x0020;

pub const REGULAR: SelectionFlags = 0x0040;

pub const USE_TYPO_METRICS: SelectionFlags = 0x0080;

pub const WWS: SelectionFlags = 0x0100;

pub const OBLIQUE: SelectionFlags = 0x0200;

/// Bits of the flags in `head`.
pub const BASELINE_AT_Y_0: u16 = 0x0001;

pub const LSB_AT_X_0: u16 = 0x0002;

/// The vendor of a font that names none, `NONE`.
pub const NO_VENDOR: u32 = 0x4E4F4E45;

/// The four style-linking styles.
#[derive(Debug, Clone, Copy, PartialEq, Eq, Hash, Structural)]
pub enum StyleMapStyle {
    Regular,
    Italic,
    Bold,
    BoldItalic,
}

/// How a style-linking style reads in the name table.
pub open spec fn style_name(style: StyleMapStyle) -> Seq<char> {
    match style {
        StyleMapStyle::Regular => "Regular"@,
        StyleMapStyle::Italic => "Italic"@,
        StyleMapStyle::Bold => "Bold"@,
        StyleMapStyle::BoldItalic => "Bold Italic"@,
    }
}

/// The style that a name in small letters spells, if it spells one.
pub open spec fn style_spelled(lowercased: Seq<char>) -> Option<StyleMapStyle> {
    if lowercased == "regular"@ {
        Some(StyleMapStyle::Regular)
    } else if lowercased == "italic"@ {
        Some(StyleMapStyle::Italic)
    } else if lowercased == "bold"@ {
        Some(StyleMapStyle::Bold)
    } else if lowercased == "bold italic"@ {
        Some(StyleMapStyle::BoldItalic)
    } else {
        None
    }
}

/// The style a style map style name states: the case does not count, nor does
/// white space around it.
pub open spec fn style_stated(raw: Seq<char>) -> Option<StyleMapStyle> {
    style_spelled(text::lowercase(text::trimmed(raw)))
}

/// The bits of `fsSelection` that a style contributes.
pub open spec fn style_flags(style: StyleMapStyle) -> SelectionFlags {
    match style {
        StyleMapStyle::Regular => REGULAR,
        StyleMapStyle::Italic => ITALIC,
        StyleMapStyle::Bold => BOLD,
        StyleMapStyle::BoldItalic => BOLD | ITALIC,
    }
}

impl StyleMapStyle {
    /// The title case form, which is what the name table holds.
    pub fn to_name(self) -> (r: &'static str)
        ensures
            r@ == style_name(self),
    {
        match self {
            StyleMapStyle::Regular => "Regular",
            StyleMapStyle::Italic => "Italic",
            StyleMapStyle::Bold => "Bold",
            StyleMapStyle::BoldItalic => "Bold Italic",
        }
    }

    /// The `fsSelection` bits this style contributes, which are also macStyle's.
    pub fn selection_flags(self) -> (r: SelectionFlags)
        ensures
            r == style_flags(self),
    {
        match self {
            StyleMapStyle::Regular => REGULAR,
            StyleMapStyle::Italic => ITALIC,
            StyleMapStyle::Bold => BOLD,
            StyleMapStyle::BoldItalic => BOLD | ITALIC,
        }
    }

    /// The style that a name already in small letters spells.
    pub fn from_lowercase(name: &str) -> (r: Option<StyleMapStyle>)
        ensures
            r == style_spelled(name@),
    {
        if text::same(name, "regular") {
            Some(StyleMapStyle::Regular)
        } else if text::same(name, "italic") {
            Some(StyleMapStyle::Italic)
        } else if text::same(name, "bold") {
            Some(StyleMapStyle::Bold)
        } else if text::same(name, "bold italic") {
            Some(StyleMapStyle::BoldItalic)
        } else {
            None
        }
    }

    /// Parse a style map style name. `None` for anything that isn't one of the
    /// four.
    pub fn parse(raw: &str) -> (r: Option<StyleMapStyle>)
        ensures
            r == style_stated(raw@),
    {
        let chars: Vec<char> = text::chars_of(raw);
        StyleMapStyle::from_lowercase(text::lowercase_of(&text::trim(&chars)).as_str())
    }

    /// The style two flags describe, whatever the style is called.
    pub fn from_flags(is_bold: bool, is_italic: bool) -> (r: StyleMapStyle)
        ensures
            is_bold && is_italic ==> r == StyleMapStyle::BoldItalic,
            is_bold && !is_italic ==> r == StyleMapStyle::Bold,
            !is_bold && is_italic ==> r == StyleMapStyle::Italic,
            !is_bold && !is_italic ==> r == StyleMapStyle::Regular,
    {
        if is_bold {
            if is_italic {
                StyleMapStyle::BoldItalic
            } else {
                StyleMapStyle::Bold
            }
        } else if is_italic {
            StyleMapStyle::Italic
        } else {
            StyleMapStyle::Regular
        }
    }
}

/// Which record of the name table, for which platform and language.
#[derive(Debug, Clone, Copy, PartialEq, Eq, Hash, PartialOrd, Ord, Structural)]
pub struct NameKey {
    pub name_id: NameId,
    pub platform_id: u16,
    pub encoding_id: u16,
    pub lang_id: u16,
}

/// Whether every character is within the Basic Multilingual Plane.
pub open spec fn within_bmp(value: Seq<char>) -> bool {
    forall|i: int| 0 <= i < value.len() ==> (#[trigger] value[i] as u32) <= 0xFFFF
}

/// The key of a Windows name record with this value.
pub open spec fn windows_key(name_id: NameId, value: Seq<char>, lang_id: u16) -> NameKey {
    NameKey {
        name_id,
        platform_id: 3,
        encoding_id: if within_bmp(value) {
            1
        } else {
            10
        },
        lang_id,
    }
}

impl NameKey {
    /// A key suitable for use with the provided value: the encoding differs if
    /// the value reaches outside the Basic Multilingual Plane.
    pub fn new(name_id: NameId, value: &str) -> (r: NameKey)
        ensures
            r == windows_key(name_id, value@, ENGLISH),
    {
        NameKey::new_with_lang(name_id, value, ENGLISH)
    }

    pub fn new_with_lang(name_id: NameId, value: &str, lang_id: u16) -> (r: NameKey)
        ensures
            r == windows_key(name_id, value@, lang_id),
    {
        NameKey { name_id, platform_id: 3, encoding_id: NameKey::encoding_for(value), lang_id }
    }

    /// The encoding for a name on the Windows platform.
    fn encoding_for(value: &str) -> (r: u16)
        ensures
            r == (if within_bmp(value@) {
                1u16
            } else {
                10u16
            }),
    {
        let chars: Vec<char> = text::chars_of(value);
        let mut i: usize = 0;
        while i < chars.len()
            invariant
                i <= chars@.len(),
                chars@ == value@,
                forall|j: int| 0 <= j < i ==> (#[trigger] chars@[j] as u32) <= 0xFFFF,
            decreases chars.len() - i,
        {
            if (chars[i] as u32) > 0xFFFF {
                return 10;
            }
            i = i + 1;
        }
        1
    }

    pub fn new_bmp_only(name_id: NameId) -> (r: NameKey)
        ensures
            r == windows_key(name_id, Seq::empty(), ENGLISH),
    {
        proof {
            reveal_strlit("");
            assert(""@ =~= Seq::<char>::empty());
        }
        NameKey::new(name_id, "")
    }
}

/// PANOSE bytes.
#[derive(Debug, Clone, Copy, PartialEq, Eq, Structural)]
pub struct Panose {
    pub family_type: u8,
    pub serif_style: u8,
    pub weight: u8,
    pub proportion: u8,
    pub contrast: u8,
    pub stroke_variation: u8,
    pub arm_style: u8,
    pub letterform: u8,
    pub midline: u8,
    pub x_height: u8,
}

impl From<[u8; 10]> for Panose {
    fn from(value: [u8; 10]) -> (r: Panose) {
        let r = Panose::from_digits(value);
        proof {
            assert(forall|d: int| 0 <= d < 10 ==> r@[d] == value@[d]);
            assert(r.family_type == r@[0] && r.serif_style == r@[1] && r.weight == r@[2]);
            assert(r.proportion == r@[3] && r.contrast == r@[4] && r.stroke_variation == r@[5]);
            assert(r.arm_style == r@[6] && r.letterform == r@[7] && r.midline == r@[8]);
            assert(r.x_height == r@[9]);
        }
        r
    }
}

impl vstd::std_specs::convert::FromSpecImpl<[u8; 10]> for Panose {
    open spec fn obeys_from_spec() -> bool {
        true
    }

    open spec fn from_spec(value: [u8; 10]) -> Panose {
        Panose {
            family_type: value@[0],
            serif_style: value@[1],
            weight: value@[2],
            proportion: value@[3],
            contrast: value@[4],
            stroke_variation: value@[5],
            arm_style: value@[6],
            letterform: value@[7],
            midline: value@[8],
            x_height: value@[9],
        }
    }
}

impl View for Panose {
    type V = Seq<u8>;

    /// The ten digits, in `OS/2` order.
    open spec fn view(&self) -> Seq<u8> {
        seq![
            self.family_type,
            self.serif_style,
            self.weight,
            self.proportion,
            self.contrast,
            self.stroke_variation,
            self.arm_style,
            self.letterform,
            self.midline,
            self.x_height,
        ]
    }
}

/// What all of these masters share of their PANOSE: each digit they agree
/// about, and zero for the others.
pub open spec fn shared_digits(masters: Seq<Seq<u8>>) -> Seq<u8> {
    Seq::new(
        10,
        |d: int|
            if forall|m: int| 0 <= m < masters.len() ==> (#[trigger] masters[m])[d] == masters[0][d] {
                masters[0][d]
            } else {
                0
            },
    )
}

/// What an instance interpolated from masters with these digits gets: what they
/// share, or nothing when that is all zeros or there is no master.
pub open spec fn merged(masters: Seq<Seq<u8>>) -> Option<Seq<u8>> {
    if masters.len() > 0 && exists|d: int| 0 <= d < 10 && #[trigger] shared_digits(masters)[d] != 0 {
        Some(shared_digits(masters))
    } else {
        None
    }
}

/// The digits of each master.
pub open spec fn digits_of(masters: Seq<Panose>) -> Seq<Seq<u8>> {
    masters.map_values(|p: Panose| p@)
}

impl Panose {
    /// The ten digits, in `OS/2` order.
    pub fn digits(&self) -> (r: [u8; 10])
        ensures
            r@ == self@,
    {
        let r: [u8; 10] = [
            self.family_type,
            self.serif_style,
            self.weight,
            self.proportion,
            self.contrast,
            self.stroke_variation,
            self.arm_style,
            self.letterform,
            self.midline,
            self.x_height,
        ];
        assert(r@ =~= self@);
        r
    }

    pub fn from_digits(digits: [u8; 10]) -> (r: Panose)
        ensures
            r@ == digits@,
    {
        let r = Panose {
            family_type: digits[0],
            serif_style: digits[1],
            weight: digits[2],
            proportion: digits[3],
            contrast: digits[4],
            stroke_variation: digits[5],
            arm_style: digits[6],
            letterform: digits[7],
            midline: digits[8],
            x_height: digits[9],
        };
        assert(r@ =~= digits@);
        r
    }

    pub fn to_bytes(&self) -> (r: [u8; 10])
        ensures
            r@ == self@,
    {
        self.digits()
    }

    /// The PANOSE an instance interpolated from these masters gets: a digit is
    /// kept only when every master agrees about it, the rest are zero, and
    /// nothing is left when no digit survives. `masters` are those that have a
    /// PANOSE at all.
    pub fn merged_for_instance(masters: &Vec<Panose>) -> (r: Option<Panose>)
        ensures
            merged(digits_of(masters@)) == (match r {
                Some(p) => Some(p@),
                None => None,
            }),
    {
        if masters.len() == 0 {
            return None;
        }
        let ghost all = digits_of(masters@);
        let mut shared: [u8; 10] = masters[0].digits();
        assert(all[0] == shared@);
        let mut m: usize = 1;
        while m < masters.len()
            invariant
                1 <= m <= masters@.len(),
                all == digits_of(masters@),
                forall|d: int|
                    0 <= d < 10 ==> #[trigger] shared@[d] == shared_digits(all.take(m as int))[d],
            decreases masters.len() - m,
        {
            let digits: [u8; 10] = masters[m].digits();
            assert(all[m as int] == digits@);
            let ghost before = shared@;
            let mut d: usize = 0;
            while d < 10
                invariant
                    d <= 10,
                    m < masters@.len(),
                    1 <= m,
                    before.len() == 10,
                    forall|e: int|
                        d <= e < 10 ==> #[trigger] shared@[e] == before[e],
                    forall|e: int|
                        0 <= e < d ==> #[trigger] shared@[e] == (if before[e] == digits@[e] {
                            before[e]
                        } else {
                            0
                        }),
                decreases 10 - d,
            {
                if shared[d] != digits[d] {
                    shared[d] = 0;
                }
                d = d + 1;
            }
            proof {
                let a = all.take(m as int);
                let b = all.take(m + 1);
                assert(b[m as int] == digits@);
                assert(forall|k: int| 0 <= k < m ==> #[trigger] b[k] == a[k]);
                assert forall|e: int| 0 <= e < 10 implies #[trigger] shared@[e]
                    == shared_digits(b)[e] by {
                    assert(before[e] == shared_digits(a)[e]);
                    if forall|k: int| 0 <= k < b.len() ==> (#[trigger] b[k])[e] == b[0][e] {
                        assert forall|k: int| 0 <= k < a.len() implies (#[trigger] a[k])[e]
                            == a[0][e] by {
                            assert(b[k] == a[k]);
                        }
                        assert(b[m as int][e] == b[0][e]);
                    } else if forall|k: int| 0 <= k < a.len() ==> (#[trigger] a[k])[e] == a[0][e] {
                        let k = choose|k: int| 0 <= k < b.len() && (#[trigger] b[k])[e] != b[0][e];
                        if k < m {
                            assert(a[k] == b[k]);
                        }
                        assert(b[0] == a[0]);
                    }
                }
            }
            m = m + 1;
        }
        assert(all.take(masters@.len() as int) =~= all);
        let mut d: usize = 0;
        while d < 10
            invariant
                d <= 10,
                forall|e: int| 0 <= e < d ==> #[trigger] shared@[e] == 0,
                forall|e: int| 0 <= e < 10 ==> #[trigger] shared@[e] == shared_digits(all)[e],
                all == digits_of(masters@),
                masters@.len() > 0,
            decreases 10 - d,
        {
            if shared[d] != 0 {
                assert(shared@ =~= shared_digits(all));
                assert(shared_digits(all)[d as int] != 0);
                return Some(Panose::from_digits(shared));
            }
            d = d + 1;
        }
        assert forall|e: int| 0 <= e < 10 implies #[trigger] shared_digits(all)[e] == 0 by {
            assert(shared@[e] == 0);
        }
        None
    }
}

/// A style's name states that style, and no other.
pub proof fn law_style_names_round_trip(style: StyleMapStyle)
    ensures
        style_stated(style_name(style)) == Some(style),
{
    reveal_strlit("Regular");
    reveal_strlit("Italic");
    reveal_strlit("Bold");
    reveal_strlit("Bold Italic");
    reveal_strlit("regular");
    reveal_strlit("italic");
    reveal_strlit("bold");
    reveal_strlit("bold italic");
    let name = style_name(style);
    assert(text::trimmed(name) == name);
    assert(text::all_ascii(name));
    match style {
        StyleMapStyle::Regular => {
            assert(text::lowercase(name) =~= "regular"@);
        },
        StyleMapStyle::Italic => {
            assert(text::lowercase(name) =~= "italic"@);
            assert("italic"@.len() != "regular"@.len());
        },
        StyleMapStyle::Bold => {
            assert(text::lowercase(name) =~= "bold"@);
            assert("bold"@.len() != "regular"@.len() && "bold"@.len() != "italic"@.len());
        },
        StyleMapStyle::BoldItalic => {
            assert(text::lowercase(name) =~= "bold italic"@);
            assert("bold italic"@.len() == 11);
        },
    }
}

/// What a style map style name states does not depend on the case of its ASCII
/// letters.
pub proof fn law_style_case_does_not_count(raw: Seq<char>)
    ensures
        style_stated(text::ascii_uppered(raw)) == style_stated(raw),
{
    text::lemma_trimmed_capitals(raw);
    text::law_lowercase_forgets_ascii_case(text::trimmed(raw));
}

/// A name states no style if and only if, in small letters and without white
/// space around it, it is none of the four.
pub proof fn law_only_four_styles_are_stated(raw: Seq<char>)
    ensures
        style_stated(raw) is None <==> {
            let name = text::lowercase(text::trimmed(raw));
            name != "regular"@ && name != "italic"@ && name != "bold"@ && name != "bold italic"@
        },
{
}

/// The digits say everything of a PANOSE: two with the same digits are the same.
pub proof fn law_panose_is_its_digits(a: Panose, b: Panose)
    requires
        a@ == b@,
    ensures
        a == b,
{
    assert(a@[0] == b@[0] && a@[1] == b@[1] && a@[2] == b@[2] && a@[3] == b@[3] && a@[4] == b@[4]);
    assert(a@[5] == b@[5] && a@[6] == b@[6] && a@[7] == b@[7] && a@[8] == b@[8] && a@[9] == b@[9]);
}

/// A digit of the merged PANOSE is what every master says, or zero.
pub proof fn law_merged_digits_are_agreed(masters: Seq<Seq<u8>>, d: int, m: int)
    requires
        merged(masters) is Some,
        0 <= d < 10,
        0 <= m < masters.len(),
    ensures
        merged(masters)->0[d] == masters[m][d] || merged(masters)->0[d] == 0,
{
    if forall|k: int| 0 <= k < masters.len() ==> (#[trigger] masters[k])[d] == masters[0][d] {
        assert(masters[m][d] == masters[0][d]);
    }
}

/// Masters that agree about everything merge to what they all say.
pub proof fn law_merging_equal_masters(masters: Seq<Seq<u8>>, digits: Seq<u8>)
    requires
        masters.len() > 0,
        digits.len() == 10,
        forall|m: int| 0 <= m < masters.len() ==> #[trigger] masters[m] == digits,
        exists|d: int| 0 <= d < 10 && #[trigger] digits[d] != 0,
    ensures
        merged(masters) == Some(digits),
{
    assert(masters[0] == digits);
    assert(shared_digits(masters) =~= digits);
    let d = choose|d: int| 0 <= d < 10 && #[trigger] digits[d] != 0;
    assert(shared_digits(masters)[d] != 0);
}

/// A range on an axis, in design space. A side that is not stated is open.
#[derive(Debug, Clone, Copy, PartialEq, Eq, Hash, PartialOrd, Ord, Structural)]
pub struct Condition {
    pub axis: Tag,
    pub min: Option<Real>,
    pub max: Option<Real>,
}

/// An unstated bound comes before every stated one.
pub open spec fn bound_le(a: Option<Real>, b: Option<Real>) -> bool {
    match (a, b) {
        (None, _) => true,
        (Some(_), None) => false,
        (Some(a), Some(b)) => a <= b,
    }
}

/// Conditions are ordered by axis, then by their lower, then by their upper bound.
pub open spec fn condition_le(a: Condition, b: Condition) -> bool {
    if a.axis != b.axis {
        a.axis.0 < b.axis.0
    } else if a.min != b.min {
        bound_le(a.min, b.min)
    } else {
        bound_le(a.max, b.max)
    }
}

impl Condition {
    pub fn new(axis: Tag, min: Option<Real>, max: Option<Real>) -> (r: Condition)
        ensures
            r == (Condition { axis, min, max }),
    {
        Condition { axis, min, max }
    }
}

fn bound_not_after(a: Option<Real>, b: Option<Real>) -> (r: bool)
    ensures
        r == bound_le(a, b),
{
    match a {
        None => true,
        Some(x) => match b {
            None => false,
            Some(y) => x <= y,
        },
    }
}

fn same_bound(a: Option<Real>, b: Option<Real>) -> (r: bool)
    ensures
        r == (a == b),
{
    match a {
        None => b.is_none(),
        Some(x) => match b {
            None => false,
            Some(y) => x == y,
        },
    }
}

fn condition_not_after(a: &Condition, b: &Condition) -> (r: bool)
    ensures
        r == condition_le(*a, *b),
{
    if a.axis != b.axis {
        a.axis.0 < b.axis.0
    } else if !same_bound(a.min, b.min) {
        bound_not_after(a.min, b.min)
    } else {
        bound_not_after(a.max, b.max)
    }
}

pub open spec fn conditions_ascend(conditions: Seq<Condition>) -> bool {
    forall|i: int, j: int|
        0 <= i < j < conditions.len() ==> #[trigger] condition_le(conditions[i], conditions[j])
}

/// A series of conditions, all of which must hold for it to apply.
///
/// The conditions are always sorted.
#[derive(Debug, PartialEq, Eq, Hash)]
pub struct ConditionSet {
    conditions: Vec<Condition>,
}

impl View for ConditionSet {
    type V = Seq<Condition>;

    closed spec fn view(&self) -> Seq<Condition> {
        self.conditions@
    }
}

impl ConditionSet {
    #[verifier::type_invariant]
    spec fn sorted(self) -> bool {
        conditions_ascend(self.conditions@)
    }

    /// The set of these conditions, whatever order they come in.
    pub fn from_conditions(conditions: Vec<Condition>) -> (r: ConditionSet)
        ensures
            r@.to_multiset() == conditions@.to_multiset(),
            conditions_ascend(r@),
    {
        let mut sorted: Vec<Condition> = Vec::new();
        let mut i: usize = 0;
        assert(conditions@.take(0) =~= Seq::<Condition>::empty());
        while i < conditions.len()
            invariant
                i <= conditions@.len(),
                conditions_ascend(sorted@),
                sorted@.to_multiset() == conditions@.take(i as int).to_multiset(),
            decreases conditions.len() - i,
        {
            let c: Condition = conditions[i];
            let mut at: usize = 0;
            while at < sorted.len() && condition_not_after(&sorted[at], &c)
                invariant
                    at <= sorted@.len(),
                    forall|j: int| 0 <= j < at ==> condition_le(#[trigger] sorted@[j], c),
                decreases sorted.len() - at,
            {
                at = at + 1;
            }
            let ghost before = sorted@;
            sorted.insert(at, c);
            proof {
                assert(sorted@ =~= before.insert(at as int, c));
                assert(conditions@.take(i + 1) =~= conditions@.take(i as int).push(c));
                vstd::seq_lib::to_multiset_insert(before, at as int, c);
                vstd::seq_lib::to_multiset_build(conditions@.take(i as int), c);
                assert forall|x: int, y: int| 0 <= x < y < sorted@.len() implies #[trigger] condition_le(
                    sorted@[x],
                    sorted@[y],
                ) by {
                    let a = if x < at {
                        before[x]
                    } else if x == at {
                        c
                    } else {
                        before[x - 1]
                    };
                    let b = if y < at {
                        before[y]
                    } else if y == at {
                        c
                    } else {
                        before[y - 1]
                    };
                    assert(sorted@[x] == a && sorted@[y] == b);
                    if at < before.len() {
                        assert(condition_le(c, before[at as int]));
                        if y > at + 1 {
                            assert(condition_le(before[at as int], before[y - 1]));
                        }
                    }
                }
            }
            i = i + 1;
        }
        assert(conditions@.take(conditions@.len() as int) =~= conditions@);
        ConditionSet { conditions: sorted }
    }

    /// The conditions, in order.
    pub fn conditions(&self) -> (r: &Vec<Condition>)
        ensures
            r@ == self@,
            conditions_ascend(r@),
    {
        proof {
            use_type_invariant(self);
        }
        &self.conditions
    }
}

impl Clone for ConditionSet {
    fn clone(&self) -> (r: ConditionSet)
        ensures
            r@ == self@,
    {
        proof {
            use_type_invariant(self);
        }
        ConditionSet { conditions: lookup::copied(&self.conditions) }
    }
}

/// A condition set does not depend on the order its conditions come in: two
/// sorted series of the same conditions are the same series.
pub proof fn law_condition_sets_forget_order(a: Seq<Condition>, b: Seq<Condition>)
    requires
        conditions_ascend(a),
        conditions_ascend(b),
        a.to_multiset() == b.to_multiset(),
    ensures
        a == b,
{
    let leq = |x: Condition, y: Condition| condition_le(x, y);
    assert forall|x: Condition, y: Condition| #[trigger] leq(x, y) && #[trigger] leq(y, x) implies x
        == y by {}
    assert(vstd::relations::total_ordering(leq));
    assert forall|i: int, j: int| 0 <= i < j < a.len() implies #[trigger] leq(a[i], a[j]) by {
        assert(condition_le(a[i], a[j]));
    }
    assert forall|i: int, j: int| 0 <= i < j < b.len() implies #[trigger] leq(b[i], b[j]) by {
        assert(condition_le(b[i], b[j]));
    }
    vstd::seq_lib::lemma_sorted_unique(a, b, leq);
}

/// A glyph substitution.
#[derive(Debug, Clone, PartialEq, Eq)]
pub struct Substitution {
    /// The glyph to be substituted.
    pub replace: String,
    /// The substitute glyph.
    pub with: String,
}

/// Substitutions, and what triggers them.
#[derive(Debug, Clone, PartialEq, Eq)]
pub struct Rule {
    /// Only one of these needs to hold for the substitutions to be applied.
    pub conditions: Vec<ConditionSet>,
    pub substitutions: Vec<Substitution>,
}

/// Substitution rules to be applied to layout features at specific points in
/// design space.
#[derive(Debug, Clone, PartialEq, Eq)]
pub struct VariableFeature {
    /// The features for which these rules apply.
    pub features: Vec<Tag>,
    pub rules: Vec<Rule>,
}

/// The PostScript-specific data of one master, mostly hinting.
///
/// Lists are empty when the source provides none. Values are unrounded.
#[derive(Debug, Default, PartialEq, Eq)]
pub struct PostscriptSettings {
    pub blue_values: Vec<Real>,
    pub other_blues: Vec<Real>,
    pub family_blues: Vec<Real>,
    pub family_other_blues: Vec<Real>,
    pub blue_scale: Option<Real>,
    pub blue_shift: Option<Real>,
    pub blue_fuzz: Option<Real>,
    pub stem_snap_h: Vec<Real>,
    pub stem_snap_v: Vec<Real>,
    pub force_bold: Option<bool>,
    /// Becomes the CFF `Weight`; not necessarily a wght axis name.
    pub weight_name: Option<String>,
    /// This master's weight class, from which an interpolated instance derives
    /// its weight name.
    pub os2_weight_class: Option<Real>,
    /// Becomes the CFF `FullName`.
    pub full_name: Option<String>,
    /// If set, overrides the computed CFF `defaultWidthX`.
    pub default_width_x: Option<Real>,
    /// If set, overrides the computed CFF `nominalWidthX`.
    pub nominal_width_x: Option<Real>,
}

pub(crate) fn copy_name(name: &Option<String>) -> (r: Option<String>)
    ensures
        r == *name,
{
    match name {
        Some(s) => Some(s.clone()),
        None => None,
    }
}

impl PostscriptSettings {
    /// Whether two settings say the same.
    pub open spec fn same_as(&self, other: &PostscriptSettings) -> bool {
        &&& self.blue_values@ == other.blue_values@
        &&& self.other_blues@ == other.other_blues@
        &&& self.family_blues@ == other.family_blues@
        &&& self.family_other_blues@ == other.family_other_blues@
        &&& self.blue_scale == other.blue_scale
        &&& self.blue_shift == other.blue_shift
        &&& self.blue_fuzz == other.blue_fuzz
        &&& self.stem_snap_h@ == other.stem_snap_h@
        &&& self.stem_snap_v@ == other.stem_snap_v@
        &&& self.force_bold == other.force_bold
        &&& self.weight_name == other.weight_name
        &&& self.os2_weight_class == other.os2_weight_class
        &&& self.full_name == other.full_name
        &&& self.default_width_x == other.default_width_x
        &&& self.nominal_width_x == other.nominal_width_x
    }

    /// Whether nothing is stated.
    pub open spec fn says_nothing(&self) -> bool {
        &&& self.blue_values@.len() == 0
        &&& self.other_blues@.len() == 0
        &&& self.family_blues@.len() == 0
        &&& self.family_other_blues@.len() == 0
        &&& self.blue_scale is None
        &&& self.blue_shift is None
        &&& self.blue_fuzz is None
        &&& self.stem_snap_h@.len() == 0
        &&& self.stem_snap_v@.len() == 0
        &&& self.force_bold is None
        &&& self.weight_name is None
        &&& self.os2_weight_class is None
        &&& self.full_name is None
        &&& self.default_width_x is None
        &&& self.nominal_width_x is None
    }

    /// Settings that state nothing.
    pub fn unstated() -> (r: PostscriptSettings)
        ensures
            r.says_nothing(),
    {
        PostscriptSettings {
            blue_values: Vec::new(),
            other_blues: Vec::new(),
            family_blues: Vec::new(),
            family_other_blues: Vec::new(),
            blue_scale: None,
            blue_shift: None,
            blue_fuzz: None,
            stem_snap_h: Vec::new(),
            stem_snap_v: Vec::new(),
            force_bold: None,
            weight_name: None,
            os2_weight_class: None,
            full_name: None,
            default_width_x: None,
            nominal_width_x: None,
        }
    }
}

impl Clone for PostscriptSettings {
    fn clone(&self) -> (r: PostscriptSettings)
        ensures
            r.same_as(self),
    {
        PostscriptSettings {
            blue_values: lookup::copied(&self.blue_values),
            other_blues: lookup::copied(&self.other_blues),
            family_blues: lookup::copied(&self.family_blues),
            family_other_blues: lookup::copied(&self.family_other_blues),
            blue_scale: self.blue_scale,
            blue_shift: self.blue_shift,
            blue_fuzz: self.blue_fuzz,
            stem_snap_h: lookup::copied(&self.stem_snap_h),
            stem_snap_v: lookup::copied(&self.stem_snap_v),
            force_bold: self.force_bold,
            weight_name: copy_name(&self.weight_name),
            os2_weight_class: self.os2_weight_class,
            full_name: copy_name(&self.full_name),
            default_width_x: self.default_width_x,
            nominal_width_x: self.nominal_width_x,
        }
    }
}

/// Records for the `meta` table.
#[derive(Debug, Default, PartialEq, Eq)]
pub struct MetaTableValues {
    /// The languages the font is designed for.
    pub dlng: Vec<String>,
    /// The languages the font supports.
    pub slng: Vec<String>,
}

impl MetaTableValues {
    pub open spec fn same_as(&self, other: &MetaTableValues) -> bool {
        self.dlng@ == other.dlng@ && self.slng@ == other.slng@
    }
}

impl Clone for MetaTableValues {
    fn clone(&self) -> (r: MetaTableValues)
        ensures
            r.same_as(self),
    {
        MetaTableValues {
            dlng: lookup::copied_texts(&self.dlng),
            slng: lookup::copied_texts(&self.slng),
        }
    }
}

/// A metric that varies across design space, by number.
#[derive(Debug, Clone, Copy, PartialEq, Eq, PartialOrd, Ord, Hash, Structural)]
pub struct GlobalMetric(pub u16);

/// What an instance states itself, which beats whatever the masters say.
#[derive(Debug, Clone, Default, PartialEq, Eq)]
pub struct InstanceOverrides {
    /// Replaces the PANOSE merged across masters.
    pub panose: Option<Panose>,
    pub fs_type: Option<u16>,
    pub is_fixed_pitch: Option<bool>,
    pub unicode_range_bits: Option<Vec<u32>>,
    pub codepage_range_bits: Option<Vec<u32>>,
    pub meta_table: Option<MetaTableValues>,
    /// `fsSelection` bit 7.
    pub use_typo_metrics: Option<bool>,
    /// `fsSelection` bit 8.
    pub has_wws_names: Option<bool>,
    pub use_production_names: Option<bool>,
    /// Metrics the instance states outright, overriding the interpolation.
    pub metrics: Vec<(GlobalMetric, Real)>,
    /// Names that also drive the fallbacks of other names, in ascending order
    /// of id.
    pub names: Vec<(NameId, String)>,
    /// Names applied after the table is built, overriding the computed records.
    pub name_records: Vec<(NameKey, String)>,
    /// The CFF `FullName`.
    pub postscript_full_name: Option<String>,
}

/// A named position in variation space.
#[derive(Debug, Clone, Default, PartialEq, Eq)]
pub struct NamedInstance {
    /// The style name.
    pub name: String,
    pub postscript_name: Option<String>,
    /// In user space.
    pub location: Location,
    /// The family name of the instance.
    pub family_name: Option<String>,
    /// The family name for style linking, if the source states one.
    pub style_map_family_name: Option<String>,
    /// The style for style linking, in the source's own spelling.
    pub style_map_style_name: Option<String>,
    pub overrides: InstanceOverrides,
}

impl NamedInstance {
    /// The style linking this instance implies, if it implies any: `None` for a
    /// style map style that isn't one of the four.
    pub fn style_map_style(&self) -> (r: Option<StyleMapStyle>)
        ensures
            r == (match self.style_map_style_name {
                Some(raw) => style_stated(raw@),
                None => None,
            }),
    {
        match &self.style_map_style_name {
            Some(raw) => StyleMapStyle::parse(raw.as_str()),
            None => None,
        }
    }

    /// The style for style linking as the name table spells it, in title case.
    pub fn style_map_style_display(&self) -> (r: Option<String>)
        ensures
            match (self.style_map_style_name, r) {
                (Some(raw), Some(shown)) => shown@ == text::titled(raw@),
                (None, None) => true,
                _ => false,
            },
    {
        match &self.style_map_style_name {
            Some(raw) => Some(text::title_case(raw.as_str())),
            None => None,
        }
    }
}

/// A class of glyphs in the GDEF table.
#[derive(Debug, Clone, Copy, PartialEq, Eq, Structural)]
pub enum GlyphClassDef {
    Base,
    Ligature,
    Mark,
    Component,
}

/// GDEF categories derived from source before anchor propagation.
#[derive(Debug, Clone, Default, PartialEq, Eq)]
pub struct PreliminaryGdefCategories {
    /// The categories of glyphs from source.
    pub categories: Vec<(String, GlyphClassDef)>,
    /// Whether final categories are inferred from the presence of anchors.
    pub infer_from_anchors: bool,
    /// All glyphs whose source category is Mark.
    pub mark_category_glyphs: Vec<String>,
}

/// Final GDEF categories after anchor propagation has been applied.
#[derive(Debug, Clone, Default, PartialEq, Eq)]
pub struct GdefCategories {
    pub categories: Vec<(String, GlyphClassDef)>,
}

/// One automatic feature writer, and how it is to write.
#[derive(Debug, PartialEq, Eq)]
pub struct FeatureWriterSpec {
    pub writer: String,
    pub mode: String,
    pub features: Option<Vec<String>>,
}

impl FeatureWriterSpec {
    pub open spec fn same_as(&self, other: &FeatureWriterSpec) -> bool {
        &&& self.writer == other.writer
        &&& self.mode == other.mode
        &&& match (self.features, other.features) {
            (Some(a), Some(b)) => a@ == b@,
            (None, None) => true,
            _ => false,
        }
    }
}

impl Clone for FeatureWriterSpec {
    fn clone(&self) -> (r: FeatureWriterSpec)
        ensures
            r.same_as(self),
    {
        FeatureWriterSpec {
            writer: self.writer.clone(),
            mode: self.mode.clone(),
            features: match &self.features {
                Some(features) => Some(lookup::copied_texts(features)),
                None => None,
            },
        }
    }
}

/// Metadata primarily feeding the OS/2 table.
#[derive(Debug, PartialEq, Eq)]
pub struct MiscMetadata {
    pub fs_type: Option<u16>,
    /// What the source specifically states, if it states anything.
    pub is_fixed_pitch: Option<bool>,
    pub selection_flags: SelectionFlags,
    pub vendor_id: Tag,
    /// The vendor id exactly as the source stated it: `vendor_id` is padded.
    pub raw_vendor_id: Option<String>,
    pub version_major: i32,
    pub version_minor: u32,
    pub head_flags: u16,
    pub lowest_rec_ppm: u16,
    /// Seconds since the Unix epoch.
    pub created: Option<i64>,
    pub family_class: Option<i16>,
    pub panose: Option<Panose>,
    /// The PANOSE an interpolated instance gets, see
    /// [`Panose::merged_for_instance`].
    pub instance_panose: Option<Panose>,
    pub unicode_range_bits: Option<Vec<u32>>,
    pub codepage_range_bits: Option<Vec<u32>>,
    pub meta_table: Option<MetaTableValues>,
    pub us_weight_class: Option<u16>,
    pub us_width_class: Option<u16>,
    /// Upper limits in pixels per em, and what applies up to them.
    pub gasp: Vec<(u16, u16)>,
    /// `None` for the built-in feature writers.
    pub feature_generation: Option<Vec<FeatureWriterSpec>>,
}

/// Whether two optional lists of numbers are alike.
pub open spec fn same_bits(a: Option<Vec<u32>>, b: Option<Vec<u32>>) -> bool {
    match (a, b) {
        (Some(a), Some(b)) => a@ == b@,
        (None, None) => true,
        _ => false,
    }
}

pub(crate) fn copy_bits(bits: &Option<Vec<u32>>) -> (r: Option<Vec<u32>>)
    ensures
        same_bits(r, *bits),
{
    match bits {
        Some(bits) => Some(lookup::copied(bits)),
        None => None,
    }
}

/// Whether two optional records for the `meta` table are alike.
pub open spec fn same_meta(a: Option<MetaTableValues>, b: Option<MetaTableValues>) -> bool {
    match (a, b) {
        (Some(a), Some(b)) => a.same_as(&b),
        (None, None) => true,
        _ => false,
    }
}

pub(crate) fn copy_meta(meta: &Option<MetaTableValues>) -> (r: Option<MetaTableValues>)
    ensures
        same_meta(r, *meta),
{
    match meta {
        Some(meta) => Some(meta.clone()),
        None => None,
    }
}

/// Whether two choices of feature writers are alike.
pub open spec fn same_writers(
    a: Option<Vec<FeatureWriterSpec>>,
    b: Option<Vec<FeatureWriterSpec>>,
) -> bool {
    match (a, b) {
        (Some(a), Some(b)) => a@.len() == b@.len() && forall|i: int|
            0 <= i < a@.len() ==> (#[trigger] a@[i]).same_as(&b@[i]),
        (None, None) => true,
        _ => false,
    }
}

fn copy_writers(writers: &Option<Vec<FeatureWriterSpec>>) -> (r: Option<Vec<FeatureWriterSpec>>)
    ensures
        same_writers(r, *writers),
{
    match writers {
        Some(writers) => {
            let mut r: Vec<FeatureWriterSpec> = Vec::new();
            let mut i: usize = 0;
            while i < writers.len()
                invariant
                    i <= writers@.len(),
                    r@.len() == i,
                    forall|j: int| 0 <= j < i ==> (#[trigger] r@[j]).same_as(&writers@[j]),
                decreases writers.len() - i,
            {
                r.push(writers[i].clone());
                i = i + 1;
            }
            Some(r)
        },
        None => None,
    }
}

impl MiscMetadata {
    /// Whether two say the same.
    pub open spec fn same_as(&self, other: &MiscMetadata) -> bool {
        &&& *self == (MiscMetadata {
            unicode_range_bits: self.unicode_range_bits,
            codepage_range_bits: self.codepage_range_bits,
            meta_table: self.meta_table,
            gasp: self.gasp,
            feature_generation: self.feature_generation,
            ..*other
        })
        &&& same_bits(self.unicode_range_bits, other.unicode_range_bits)
        &&& same_bits(self.codepage_range_bits, other.codepage_range_bits)
        &&& same_meta(self.meta_table, other.meta_table)
        &&& self.gasp@ == other.gasp@
        &&& same_writers(self.feature_generation, other.feature_generation)
    }
}

impl Clone for MiscMetadata {
    fn clone(&self) -> (r: MiscMetadata)
        ensures
            r.same_as(self),
    {
        MiscMetadata {
            fs_type: self.fs_type,
            is_fixed_pitch: self.is_fixed_pitch,
            selection_flags: self.selection_flags,
            vendor_id: self.vendor_id,
            raw_vendor_id: copy_name(&self.raw_vendor_id),
            version_major: self.version_major,
            version_minor: self.version_minor,
            head_flags: self.head_flags,
            lowest_rec_ppm: self.lowest_rec_ppm,
            created: self.created,
            family_class: self.family_class,
            panose: self.panose,
            instance_panose: self.instance_panose,
            unicode_range_bits: copy_bits(&self.unicode_range_bits),
            codepage_range_bits: copy_bits(&self.codepage_range_bits),
            meta_table: copy_meta(&self.meta_table),
            us_weight_class: self.us_weight_class,
            us_width_class: self.us_width_class,
            gasp: lookup::copied(&self.gasp),
            feature_generation: copy_writers(&self.feature_generation),
        }
    }
}

/// The locations of masters, and the axes they are on.
#[derive(Debug, Clone, PartialEq, Eq)]
pub struct VariationModel {
    pub locations: Vec<Location>,
    pub axis_order: Vec<Tag>,
}

/// Global font info that cannot vary across the design space.
#[derive(Debug, Clone, PartialEq, Eq)]
pub struct StaticMetadata {
    pub units_per_em: u16,
    /// Every axis of the source.
    pub all_source_axes: Vec<Axis>,
    /// The axes of the font being compiled. If empty this is a static font.
    pub axes: Vec<Axis>,
    /// Named locations in variation space.
    pub named_instances: Vec<NamedInstance>,
    /// All locations used in the entire font.
    pub variation_model: VariationModel,
    /// Named numbers defined per master.
    pub number_values: Vec<(Location, Vec<(String, Real)>)>,
    /// What a glyph predicate token may ask about a glyph. `None` for a source
    /// that cannot answer at all.
    pub glyph_predicate_attrs: Option<Vec<(String, GlyphPredicateAttrs)>>,
    /// PostScript-specific data, one entry per master that has any.
    pub postscript: Vec<(Location, PostscriptSettings)>,
    /// Where the default master is, on every axis of the source.
    pub default_location: Location,
    pub names: Vec<(NameKey, String)>,
    /// Glyph names mapped to production names.
    pub postscript_names: Option<Vec<(String, String)>>,
    /// In counter-clockwise degrees from the vertical.
    pub italic_angle: Real,
    /// Whether there is enough vertical data to build vertical metrics.
    pub build_vertical: bool,
    pub misc: MiscMetadata,
    /// Feature variation rules.
    pub variations: Option<VariableFeature>,
}

/// Entries by where they are.
pub open spec fn by_place<V>(list: Seq<(Location, V)>) -> Seq<(Map<Tag, Real>, V)> {
    list.map_values(|e: (Location, V)| (e.0@, e.1))
}

/// Every list of named numbers has each name once.
pub open spec fn numbers_are_named(numbers: Seq<(Location, Vec<(String, Real)>)>) -> bool {
    forall|i: int| 0 <= i < numbers.len() ==> lookup::distinct_names((#[trigger] numbers[i]).1@)
}

/// No two entries share a name, if there are any.
pub open spec fn named_once<V>(list: Option<Vec<(String, V)>>) -> bool {
    list matches Some(list) ==> lookup::distinct_names(list@)
}

impl StaticMetadata {
    /// Whatever is looked up by a key is there once: a record by its key,
    /// settings and numbers by their location, a number by its name, and what
    /// is known of a glyph by the glyph's name.
    pub open spec fn is_keyed(&self) -> bool {
        &&& lookup::keyed(records(self.names@))
        &&& lookup::keyed(by_place(self.postscript@))
        &&& lookup::keyed(by_place(self.number_values@))
        &&& numbers_are_named(self.number_values@)
        &&& named_once(self.postscript_names)
        &&& named_once(self.glyph_predicate_attrs)
    }

    /// Where the default master is, on every axis of the source.
    pub open spec fn home(&self) -> Map<Tag, Real> {
        self.default_location@
    }

    /// The default on all variable axes.
    pub fn default_location(&self) -> (r: &Location)
        ensures
            r@ == self.home(),
    {
        &self.default_location
    }

    /// The PostScript settings of the master at `loc`.
    ///
    /// Falls back to the default master's when `loc` names no master that has
    /// any, and to settings that state nothing when the source has none at all.
    pub fn postscript_at(&self, loc: &Location) -> (r: PostscriptSettings)
        ensures
            match coords::placed(self.postscript@, loc@) {
                Some(i) => r.same_as(&self.postscript@[i].1),
                None => match coords::placed(self.postscript@, self.home()) {
                    Some(i) => r.same_as(&self.postscript@[i].1),
                    None => r.says_nothing(),
                },
            },
    {
        if let Some(i) = coords::find_placed(&self.postscript, loc) {
            return self.postscript[i].1.clone();
        }
        match coords::find_placed(&self.postscript, &self.default_location) {
            Some(i) => self.postscript[i].1.clone(),
            None => PostscriptSettings::unstated(),
        }
    }

    /// The PostScript settings of the default master.
    pub fn postscript_default(&self) -> (r: PostscriptSettings)
        ensures
            match coords::placed(self.postscript@, self.home()) {
                Some(i) => r.same_as(&self.postscript@[i].1),
                None => r.says_nothing(),
            },
    {
        self.postscript_at(&self.default_location)
    }

    /// The axis with a tag.
    pub fn axis(&self, tag: &Tag) -> (r: Option<&Axis>)
        ensures
            r == (match coords::axis_with(self.axes@, *tag) {
                Some(i) => Some(&self.axes@[i]),
                None => None,
            }),
    {
        match coords::find_axis(&self.axes, *tag) {
            Some(i) => Some(&self.axes[i]),
            None => None,
        }
    }
}

/// Whether a position lies within the range of every axis it names.
pub open spec fn within_ranges(axes: Seq<Axis>, at: Map<Tag, Real>) -> bool {
    forall|i: int|
        0 <= i < axes.len() && at.contains_key((#[trigger] axes[i]).tag) ==> axes[i].min
            <= at[axes[i].tag] <= axes[i].max
}

/// The named instances that reach fvar: those within the ranges of the axes.
pub open spec fn reaching_fvar(axes: Seq<Axis>, instances: Seq<NamedInstance>) -> Seq<NamedInstance>
    decreases instances.len(),
{
    if instances.len() == 0 {
        seq![]
    } else {
        let rest = reaching_fvar(axes, instances.drop_last());
        if within_ranges(axes, instances.last().location@) {
            rest.push(instances.last())
        } else {
            rest
        }
    }
}

fn is_within_ranges(axes: &Vec<Axis>, at: &Location) -> (r: bool)
    ensures
        r == within_ranges(axes@, at@),
{
    let mut i: usize = 0;
    while i < axes.len()
        invariant
            i <= axes@.len(),
            forall|j: int|
                0 <= j < i && at@.contains_key((#[trigger] axes@[j]).tag) ==> axes@[j].min
                    <= at@[axes@[j].tag] <= axes@[j].max,
        decreases axes.len() - i,
    {
        if let Some(pos) = at.get(axes[i].tag) {
            if pos < axes[i].min || pos > axes[i].max {
                return false;
            }
        }
        i = i + 1;
    }
    true
}

/// What a list of references refers to.
pub open spec fn referred(list: Seq<&NamedInstance>) -> Seq<NamedInstance> {
    list.map_values(|i: &NamedInstance| *i)
}

/// The named instances that reach fvar. One outside an axis' range belongs to
/// no variable font, so it is simply absent.
fn fvar_instances_of<'a>(axes: &Vec<Axis>, instances: &'a Vec<NamedInstance>) -> (r: Vec<
    &'a NamedInstance,
>)
    ensures
        referred(r@) == reaching_fvar(axes@, instances@),
{
    let mut r: Vec<&NamedInstance> = Vec::new();
    let mut i: usize = 0;
    while i < instances.len()
        invariant
            i <= instances@.len(),
            referred(r@) =~= reaching_fvar(axes@, instances@.take(i as int)),
        decreases instances.len() - i,
    {
        assert(instances@.take(i + 1).drop_last() =~= instances@.take(i as int));
        if is_within_ranges(axes, &instances[i].location) {
            let ghost before = r@;
            r.push(&instances[i]);
            assert(referred(r@) =~= referred(before).push(instances@[i as int]));
        }
        i = i + 1;
    }
    assert(instances@.take(instances@.len() as int) =~= instances@);
    r
}

/// The default position on every axis, in user space.
pub open spec fn defaults_of(axes: Seq<Axis>) -> Map<Tag, Real>
    decreases axes.len(),
{
    if axes.len() == 0 {
        Map::empty()
    } else {
        defaults_of(axes.drop_last()).insert(axes.last().tag, axes.last().default)
    }
}

/// The default position on every axis, in user space.
pub fn default_position(axes: &Vec<Axis>) -> (r: Location)
    ensures
        r@ == defaults_of(axes@),
{
    let mut r = Location::new();
    let mut i: usize = 0;
    while i < axes.len()
        invariant
            i <= axes@.len(),
            r@ == defaults_of(axes@.take(i as int)),
        decreases axes.len() - i,
    {
        assert(axes@.take(i + 1).drop_last() =~= axes@.take(i as int));
        r.insert(axes[i].tag, axes[i].default);
        i = i + 1;
    }
    assert(axes@.take(axes@.len() as int) =~= axes@);
    r
}

/// The records of a name table.
pub open spec fn records(names: Seq<(NameKey, String)>) -> Seq<(NameKey, Seq<char>)> {
    names.map_values(|e: (NameKey, String)| (e.0, e.1@))
}

/// Whether a name table has a record under a key.
pub open spec fn has_key(names: Seq<(NameKey, Seq<char>)>, key: NameKey) -> bool {
    exists|i: int| 0 <= i < names.len() && (#[trigger] names[i]).0 == key
}

/// A name table with a record set: in place of what it had under the key, or at
/// the end.
pub open spec fn put(
    names: Seq<(NameKey, Seq<char>)>,
    key: NameKey,
    value: Seq<char>,
) -> Seq<(NameKey, Seq<char>)> {
    if has_key(names, key) {
        names.map_values(
            |e: (NameKey, Seq<char>)|
                if e.0 == key {
                    (key, value)
                } else {
                    e
                },
        )
    } else {
        names.push((key, value))
    }
}

/// Setting a record leaves every key there once.
pub proof fn law_put_keeps_keys_apart(
    names: Seq<(NameKey, Seq<char>)>,
    key: NameKey,
    value: Seq<char>,
)
    requires
        lookup::keyed(names),
    ensures
        lookup::keyed(put(names, key, value)),
{
    let after = put(names, key, value);
    if has_key(names, key) {
        assert forall|i: int, j: int| 0 <= i < j < after.len() implies (#[trigger] after[i]).0 != (
        #[trigger] after[j]).0 by {
            assert(after[i].0 == names[i].0 && after[j].0 == names[j].0);
        }
    } else {
        assert forall|i: int, j: int| 0 <= i < j < after.len() implies (#[trigger] after[i]).0 != (
        #[trigger] after[j]).0 by {
            assert(after[i] == names[i]);
            if j < names.len() {
                assert(after[j] == names[j]);
            }
        }
    }
}

/// Minting names leaves every key there once.
pub proof fn law_minting_keeps_keys_apart(
    names: Seq<(NameKey, Seq<char>)>,
    values: Seq<Seq<char>>,
)
    requires
        lookup::keyed(names),
    ensures
        lookup::keyed(with_minted(names, values)),
    decreases values.len(),
{
    if values.len() > 0 {
        law_minting_keeps_keys_apart(names, values.drop_last());
        law_put_keeps_keys_apart(
            with_minted(names, values.drop_last()),
            windows_key((255 + values.len()) as u16, values.last(), ENGLISH),
            values.last(),
        );
    }
}

/// Set a record of a name table.
pub fn put_name(names: &mut Vec<(NameKey, String)>, key: NameKey, value: &String)
    ensures
        records(final(names)@) == put(records(old(names)@), key, value@),
{
    let ghost before = records(names@);
    let mut found: bool = false;
    let mut i: usize = 0;
    while i < names.len()
        invariant
            i <= names@.len(),
            before == records(old(names)@),
            names@.len() == before.len(),
            found <==> exists|j: int| 0 <= j < i && (#[trigger] before[j]).0 == key,
            forall|j: int|
                0 <= j < i ==> #[trigger] records(names@)[j] == (if before[j].0 == key {
                    (key, value@)
                } else {
                    before[j]
                }),
            forall|j: int| i <= j < names@.len() ==> #[trigger] records(names@)[j] == before[j],
        decreases names.len() - i,
    {
        assert(records(names@)[i as int] == before[i as int]);
        if names[i].0 == key {
            let ghost was = names@;
            names.set(i, (key, value.clone()));
            found = true;
            assert(before[i as int].0 == key);
            assert forall|j: int| 0 <= j < names@.len() && j != i implies #[trigger] records(
                names@,
            )[j] == records(was)[j] by {}
        }
        i = i + 1;
    }
    if !found {
        let ghost was = names@;
        names.push((key, value.clone()));
        assert(records(was) =~= before);
        assert(records(names@) =~= before.push((key, value@)));
    } else {
        assert(records(names@) =~= put(before, key, value@));
    }
}

/// The id of the first record with a value.
pub open spec fn id_of_value(names: Seq<(NameKey, String)>, value: Seq<char>) -> Option<NameId>
    decreases names.len(),
{
    if names.len() == 0 {
        None
    } else if names[0].1@ == value {
        Some(names[0].0.name_id)
    } else {
        id_of_value(names.skip(1), value)
    }
}

/// Whether an instance at the default position can go by the subfamily name
/// that the name table has already.
pub open spec fn reuses_subfamily_name(
    instance: NamedInstance,
    axes: Seq<Axis>,
    names: Seq<(NameKey, String)>,
) -> bool {
    instance.location@ == defaults_of(axes) && (id_of_value(names, instance.name@) == Some(
        SUBFAMILY_NAME,
    ) || id_of_value(names, instance.name@) == Some(TYPOGRAPHIC_SUBFAMILY_NAME))
}

/// What instances want named: each its name, unless it goes by the subfamily
/// name, and its PostScript name, if it has one.
pub open spec fn instance_names(
    instances: Seq<NamedInstance>,
    axes: Seq<Axis>,
    names: Seq<(NameKey, String)>,
) -> Seq<Seq<char>>
    decreases instances.len(),
{
    if instances.len() == 0 {
        seq![]
    } else {
        let ni = instances.last();
        let rest = instance_names(instances.drop_last(), axes, names);
        let named = if reuses_subfamily_name(ni, axes, names) {
            rest
        } else {
            rest.push(ni.name@)
        };
        match ni.postscript_name {
            Some(ps_name) => named.push(ps_name@),
            None => named,
        }
    }
}

/// What axes want named.
pub open spec fn axis_labels(axes: Seq<Axis>) -> Seq<Seq<char>> {
    axes.map_values(|a: Axis| a.ui_label_name@)
}

/// Whether a name table holds a value under an id that is free to be shared.
pub open spec fn shareable(names: Seq<(NameKey, String)>, value: Seq<char>) -> bool {
    exists|i: int| 0 <= i < names.len() && (#[trigger] names[i]).0.name_id > 255 && names[i].1@ == value
}

/// Those of `wanted` that need a record of their own, each once.
pub open spec fn to_mint(names: Seq<(NameKey, String)>, wanted: Seq<Seq<char>>) -> Seq<Seq<char>>
    decreases wanted.len(),
{
    if wanted.len() == 0 {
        seq![]
    } else {
        let rest = to_mint(names, wanted.drop_last());
        if shareable(names, wanted.last()) || rest.contains(wanted.last()) {
            rest
        } else {
            rest.push(wanted.last())
        }
    }
}

/// A name table with these values under ids from 256 on.
pub open spec fn with_minted(
    names: Seq<(NameKey, Seq<char>)>,
    values: Seq<Seq<char>>,
) -> Seq<(NameKey, Seq<char>)>
    decreases values.len(),
{
    if values.len() == 0 {
        names
    } else {
        put(
            with_minted(names, values.drop_last()),
            windows_key((255 + values.len()) as u16, values.last(), ENGLISH),
            values.last(),
        )
    }
}

fn is_shareable(names: &Vec<(NameKey, String)>, value: &String) -> (r: bool)
    ensures
        r == shareable(names@, value@),
{
    let mut i: usize = 0;
    while i < names.len()
        invariant
            i <= names@.len(),
            forall|j: int|
                0 <= j < i ==> !((#[trigger] names@[j]).0.name_id > 255 && names@[j].1@ == value@),
        decreases names.len() - i,
    {
        if names[i].0.name_id > 255 && names[i].1 == *value {
            return true;
        }
        i = i + 1;
    }
    false
}

fn find_id_of_value(names: &Vec<(NameKey, String)>, value: &String) -> (r: Option<NameId>)
    ensures
        r == id_of_value(names@, value@),
{
    let mut i: usize = 0;
    assert(names@.skip(0) =~= names@);
    while i < names.len()
        invariant
            i <= names@.len(),
            id_of_value(names@, value@) == id_of_value(names@.skip(i as int), value@),
        decreases names.len() - i,
    {
        if names[i].1 == *value {
            return Some(names[i].0.name_id);
        }
        assert(names@.skip(i as int).skip(1) =~= names@.skip(i + 1));
        i = i + 1;
    }
    None
}

/// Note that `name` wants a record, unless it can share one.
fn register_if_new(names: &Vec<(NameKey, String)>, minted: &mut Vec<String>, name: &String)
    ensures
        text::texts(final(minted)@) == (if shareable(names@, name@) || text::texts(
            old(minted)@,
        ).contains(name@) {
            text::texts(old(minted)@)
        } else {
            text::texts(old(minted)@).push(name@)
        }),
{
    if is_shareable(names, name) {
        return ;
    }
    let mut i: usize = 0;
    while i < minted.len()
        invariant
            i <= minted@.len(),
            *minted == *old(minted),
            forall|j: int| 0 <= j < i ==> #[trigger] text::texts(minted@)[j] != name@,
        decreases minted.len() - i,
    {
        if minted[i] == *name {
            assert(text::texts(minted@)[i as int] == name@);
            return ;
        }
        i = i + 1;
    }
    let ghost before = minted@;
    minted.push(name.clone());
    assert(text::texts(minted@) =~= text::texts(before).push(name@));
}

/// Whether any axis can vary.
pub open spec fn can_vary(axes: Seq<Axis>) -> bool {
    exists|i: int| 0 <= i < axes.len() && !(#[trigger] axes[i]).point()
}

/// The instances of a font with these axes: on those axes only, and none at all
/// in a static font.
pub open spec fn on_axes(
    before: Seq<NamedInstance>,
    after: Seq<NamedInstance>,
    axes: Seq<Axis>,
) -> bool {
    if axes.len() == 0 {
        after.len() == 0
    } else {
        &&& after.len() == before.len()
        &&& forall|i: int|
            0 <= i < after.len() ==> {
                &&& (#[trigger] after[i]).location@ == before[i].location@.restrict(
                    coords::tags_of(axes).to_set(),
                )
                &&& after[i].name == before[i].name
                &&& after[i].postscript_name == before[i].postscript_name
                &&& after[i].family_name == before[i].family_name
                &&& after[i].style_map_family_name == before[i].style_map_family_name
                &&& after[i].style_map_style_name == before[i].style_map_style_name
                &&& after[i].overrides == before[i].overrides
            }
    }
}

/// What is not stated in the metadata of a font that says nothing more.
pub open spec fn plain_misc(misc: MiscMetadata) -> bool {
    &&& misc.fs_type is None
    &&& misc.is_fixed_pitch is None
    &&& misc.selection_flags == 0
    &&& misc.vendor_id == Tag(NO_VENDOR)
    &&& misc.raw_vendor_id is None
    &&& misc.version_major == 0
    &&& misc.version_minor == 0
    &&& misc.lowest_rec_ppm == 6
    &&& misc.head_flags == BASELINE_AT_Y_0 | LSB_AT_X_0
    &&& misc.created is None
    &&& misc.family_class is None
    &&& misc.panose is None
    &&& misc.instance_panose is None
    &&& misc.unicode_range_bits is None
    &&& misc.codepage_range_bits is None
    &&& misc.meta_table is None
    &&& misc.us_weight_class is None
    &&& misc.us_width_class is None
    &&& misc.gasp@.len() == 0
    &&& misc.feature_generation is None
}

/// Put every instance on these axes only.
fn put_on_axes(instances: Vec<NamedInstance>, axes: &Vec<Axis>) -> (r: Vec<NamedInstance>)
    ensures
        on_axes(instances@, r@, axes@),
{
    if axes.len() == 0 {
        return Vec::new();
    }
    let tags: Vec<Tag> = coords::axis_order(axes);
    let mut r: Vec<NamedInstance> = instances;
    let mut i: usize = 0;
    while i < r.len()
        invariant
            i <= r@.len(),
            r@.len() == instances@.len(),
            tags@ == coords::tags_of(axes@),
            forall|j: int| i <= j < r@.len() ==> #[trigger] r@[j] == instances@[j],
            forall|j: int|
                0 <= j < i ==> {
                    &&& (#[trigger] r@[j]).location@ == instances@[j].location@.restrict(
                        coords::tags_of(axes@).to_set(),
                    )
                    &&& r@[j].name == instances@[j].name
                    &&& r@[j].postscript_name == instances@[j].postscript_name
                    &&& r@[j].family_name == instances@[j].family_name
                    &&& r@[j].style_map_family_name == instances@[j].style_map_family_name
                    &&& r@[j].style_map_style_name == instances@[j].style_map_style_name
                    &&& r@[j].overrides == instances@[j].overrides
                },
        decreases r.len() - i,
    {
        let location: Location = r[i].location.subset_axes(&tags);
        r[i].location = location;
        i = i + 1;
    }
    r
}

/// The axes of a font: all those of its source, unless none of them can vary.
pub open spec fn font_axes(source: Seq<Axis>, axes: Seq<Axis>) -> bool {
    if can_vary(source) {
        coords::same_axes(axes, source)
    } else {
        axes.len() == 0
    }
}

/// What the axes of a font and the instances that reach fvar want named, axes
/// first.
pub open spec fn wanted_names(
    axes: Seq<Axis>,
    instances: Seq<NamedInstance>,
    names: Seq<(NameKey, String)>,
) -> Seq<Seq<char>> {
    axis_labels(axes) + instance_names(reaching_fvar(axes, instances), axes, names)
}

/// There are few enough new names for ids from 256 to 65535.
pub open spec fn ids_suffice(
    source: Seq<Axis>,
    instances: Seq<NamedInstance>,
    names: Seq<(NameKey, String)>,
) -> bool {
    forall|axes: Seq<Axis>, on: Seq<NamedInstance>|
        #![trigger font_axes(source, axes), on_axes(instances, on, axes)]
        font_axes(source, axes) && on_axes(instances, on, axes) ==> to_mint(
            names,
            wanted_names(axes, on, names),
        ).len() <= 65280
}

proof fn lemma_instance_names_len(
    instances: Seq<NamedInstance>,
    axes: Seq<Axis>,
    names: Seq<(NameKey, String)>,
)
    ensures
        instance_names(instances, axes, names).len() <= 2 * instances.len(),
    decreases instances.len(),
{
    if instances.len() > 0 {
        lemma_instance_names_len(instances.drop_last(), axes, names);
    }
}

proof fn lemma_reaching_fvar_len(axes: Seq<Axis>, instances: Seq<NamedInstance>)
    ensures
        reaching_fvar(axes, instances).len() <= instances.len(),
    decreases instances.len(),
{
    if instances.len() > 0 {
        lemma_reaching_fvar_len(axes, instances.drop_last());
    }
}

proof fn lemma_to_mint_len(names: Seq<(NameKey, String)>, wanted: Seq<Seq<char>>)
    ensures
        to_mint(names, wanted).len() <= wanted.len(),
    decreases wanted.len(),
{
    if wanted.len() > 0 {
        lemma_to_mint_len(names, wanted.drop_last());
    }
}

/// A source with no more than 65280 axes and names of instances never runs out
/// of ids.
pub proof fn law_ids_suffice(
    source: Seq<Axis>,
    instances: Seq<NamedInstance>,
    names: Seq<(NameKey, String)>,
)
    requires
        source.len() + 2 * instances.len() <= 65280,
    ensures
        ids_suffice(source, instances, names),
{
    assert forall|axes: Seq<Axis>, on: Seq<NamedInstance>|
        #![trigger font_axes(source, axes), on_axes(instances, on, axes)]
        font_axes(source, axes) && on_axes(instances, on, axes) implies to_mint(
        names,
        wanted_names(axes, on, names),
    ).len() <= 65280 by {
        lemma_reaching_fvar_len(axes, on);
        lemma_instance_names_len(reaching_fvar(axes, on), axes, names);
        lemma_to_mint_len(names, wanted_names(axes, on, names));
    }
}

fn varies(axes: &Vec<Axis>) -> (r: bool)
    ensures
        r == can_vary(axes@),
{
    let mut i: usize = 0;
    while i < axes.len()
        invariant
            i <= axes@.len(),
            forall|j: int| 0 <= j < i ==> (#[trigger] axes@[j]).point(),
        decreases axes.len() - i,
    {
        if !axes[i].is_point() {
            return true;
        }
        i = i + 1;
    }
    false
}

/// The names that axes and instances need records for, each once.
fn names_to_mint(
    axes: &Vec<Axis>,
    instances: &Vec<NamedInstance>,
    names: &Vec<(NameKey, String)>,
) -> (r: Vec<String>)
    ensures
        text::texts(r@) == to_mint(names@, wanted_names(axes@, instances@, names@)),
{
    let mut minted: Vec<String> = Vec::new();
    let ghost labels = axis_labels(axes@);
    let mut a: usize = 0;
    assert(text::texts(minted@) =~= to_mint(names@, labels.take(0)));
    while a < axes.len()
        invariant
            a <= axes@.len(),
            labels == axis_labels(axes@),
            text::texts(minted@) == to_mint(names@, labels.take(a as int)),
        decreases axes.len() - a,
    {
        assert(labels.take(a + 1).drop_last() =~= labels.take(a as int));
        assert(labels.take(a + 1).last() == axes@[a as int].ui_label_name@);
        register_if_new(names, &mut minted, &axes[a].ui_label_name);
        a = a + 1;
    }
    assert(labels.take(a as int) =~= labels);
    let fvar: Vec<&NamedInstance> = fvar_instances_of(axes, instances);
    let defaults: Location = default_position(axes);
    let ghost reached = reaching_fvar(axes@, instances@);
    let mut i: usize = 0;
    assert(labels + instance_names(reached.take(0), axes@, names@) =~= labels);
    while i < fvar.len()
        invariant
            i <= fvar@.len(),
            reached == referred(fvar@),
            labels == axis_labels(axes@),
            defaults@ == defaults_of(axes@),
            text::texts(minted@) == to_mint(
                names@,
                labels + instance_names(reached.take(i as int), axes@, names@),
            ),
        decreases fvar.len() - i,
    {
        let ni: &NamedInstance = fvar[i];
        let ghost before = instance_names(reached.take(i as int), axes@, names@);
        assert(reached[i as int] == *ni);
        assert(reached.take(i + 1).drop_last() =~= reached.take(i as int));
        assert(reached.take(i + 1).last() == *ni);
        let ghost mut so_far = before;
        let id: Option<NameId> = find_id_of_value(names, &ni.name);
        let reuse: bool = ni.location.same(&defaults) && (match id {
            Some(id) => id == SUBFAMILY_NAME || id == TYPOGRAPHIC_SUBFAMILY_NAME,
            None => false,
        });
        if !reuse {
            register_if_new(names, &mut minted, &ni.name);
            proof {
                so_far = before.push(ni.name@);
                assert((labels + so_far).drop_last() =~= labels + before);
                assert((labels + so_far).last() == ni.name@);
                assert(text::texts(minted@) == to_mint(names@, labels + so_far));
            }
        }
        if let Some(ps_name) = &ni.postscript_name {
            register_if_new(names, &mut minted, ps_name);
            proof {
                let with_ps = so_far.push(ps_name@);
                assert((labels + with_ps).drop_last() =~= labels + so_far);
                assert((labels + with_ps).last() == ps_name@);
                assert(text::texts(minted@) == to_mint(names@, labels + with_ps));
                so_far = with_ps;
            }
        }
        assert(reuse == reuses_subfamily_name(*ni, axes@, names@));
        assert(text::texts(minted@) == to_mint(names@, labels + so_far));
        assert(instance_names(reached.take(i + 1), axes@, names@) == so_far);
        i = i + 1;
    }
    assert(reached.take(i as int) =~= reached);
    minted
}

impl StaticMetadata {
    /// The metadata of a font, with records for the names of its axes and of
    /// the instances that reach fvar.
    ///
    /// A point axis can't vary, but it is still an axis. What it cannot do is
    /// make a font variable: a source whose axes are all point axes stays
    /// static, and has neither axes nor instances.
    pub fn new(
        units_per_em: u16,
        names: Vec<(NameKey, String)>,
        axes: Vec<Axis>,
        named_instances: Vec<NamedInstance>,
        global_locations: Vec<Location>,
        postscript_names: Option<Vec<(String, String)>>,
        italic_angle: Real,
        glyphsapp_number_values: Option<Vec<(Location, Vec<(String, Real)>)>>,
        build_vertical: bool,
    ) -> (r: StaticMetadata)
        requires
            ids_suffice(axes@, named_instances@, names@),
        ensures
            r.units_per_em == units_per_em,
            r.all_source_axes == axes,
            font_axes(axes@, r.axes@),
            on_axes(named_instances@, r.named_instances@, r.axes@),
            records(r.names@) == with_minted(
                records(names@),
                to_mint(names@, wanted_names(r.axes@, r.named_instances@, names@)),
            ),
            r.variation_model.locations == global_locations,
            r.variation_model.axis_order@ == coords::tags_of(r.axes@),
            r.home() == coords::fitted(Map::empty(), coords::tags_of(axes@)),
            r.postscript_names == postscript_names,
            r.italic_angle == italic_angle,
            match glyphsapp_number_values {
                Some(values) => r.number_values == values,
                None => r.number_values@.len() == 0,
            },
            r.glyph_predicate_attrs is None,
            r.postscript@.len() == 0,
            r.build_vertical == build_vertical,
            plain_misc(r.misc),
            r.variations is None,
            lookup::keyed(records(names@)) && named_once(postscript_names) && (
            glyphsapp_number_values matches Some(values) ==> lookup::keyed(by_place(values@))
                && numbers_are_named(values@)) ==> r.is_keyed(),
    {
        let variable_axes: Vec<Axis> = if varies(&axes) {
            coords::copy_axes(&axes)
        } else {
            Vec::new()
        };
        assert(font_axes(axes@, variable_axes@));
        let instances: Vec<NamedInstance> = put_on_axes(named_instances, &variable_axes);
        assert(on_axes(named_instances@, instances@, variable_axes@));
        let minted: Vec<String> = names_to_mint(&variable_axes, &instances, &names);
        let ghost values = text::texts(minted@);
        let ghost given = records(names@);
        let mut all_names: Vec<(NameKey, String)> = names;
        let mut i: usize = 0;
        assert(with_minted(given, values.take(0)) =~= given);
        while i < minted.len()
            invariant
                i <= minted@.len() <= 65280,
                values == text::texts(minted@),
                records(all_names@) == with_minted(given, values.take(i as int)),
            decreases minted.len() - i,
        {
            assert(values.take(i + 1).drop_last() =~= values.take(i as int));
            assert(values.take(i + 1).last() == minted@[i as int]@);
            let id: NameId = (256 + i) as u16;
            let key: NameKey = NameKey::new(id, minted[i].as_str());
            put_name(&mut all_names, key, &minted[i]);
            i = i + 1;
        }
        assert(values.take(i as int) =~= values);
        proof {
            if lookup::keyed(given) {
                law_minting_keeps_keys_apart(given, values);
            }
        }
        let order: Vec<Tag> = coords::axis_order(&variable_axes);
        let all_tags: Vec<Tag> = coords::axis_order(&axes);
        let default_location: Location = Location::new().fit_to_axes(&all_tags);
        StaticMetadata {
            units_per_em,
            all_source_axes: axes,
            axes: variable_axes,
            named_instances: instances,
            variation_model: VariationModel { locations: global_locations, axis_order: order },
            number_values: match glyphsapp_number_values {
                Some(values) => values,
                None => Vec::new(),
            },
            glyph_predicate_attrs: None,
            postscript: Vec::new(),
            default_location,
            names: all_names,
            postscript_names,
            italic_angle,
            build_vertical,
            misc: MiscMetadata {
                fs_type: None,
                is_fixed_pitch: None,
                selection_flags: 0,
                vendor_id: Tag(NO_VENDOR),
                raw_vendor_id: None,
                version_major: 0,
                version_minor: 0,
                head_flags: BASELINE_AT_Y_0 | LSB_AT_X_0,
                lowest_rec_ppm: 6,
                created: None,
                family_class: None,
                panose: None,
                instance_panose: None,
                unicode_range_bits: None,
                codepage_range_bits: None,
                meta_table: None,
                us_weight_class: None,
                us_width_class: None,
                gasp: Vec::new(),
                feature_generation: None,
            },
            variations: None,
        }
    }

    /// The named instances fvar lists: those within the ranges of the axes.
    pub fn fvar_instances(&self) -> (r: Vec<&NamedInstance>)
        ensures
            referred(r@) == reaching_fvar(self.axes@, self.named_instances@),
    {
        fvar_instances_of(&self.axes, &self.named_instances)
    }
}

/// Records under the ids that have a fixed meaning stay as they are.
pub proof fn law_minting_keeps_reserved_names(
    names: Seq<(NameKey, Seq<char>)>,
    values: Seq<Seq<char>>,
    i: int,
)
    requires
        values.len() <= 65280,
        0 <= i < names.len(),
        names[i].0.name_id <= 255,
    ensures
        with_minted(names, values).len() >= names.len(),
        with_minted(names, values)[i] == names[i],
    decreases values.len(),
{
    if values.len() > 0 {
        law_minting_keeps_reserved_names(names, values.drop_last(), i);
        lemma_with_minted_grows(names, values.drop_last());
    }
}

proof fn lemma_with_minted_grows(names: Seq<(NameKey, Seq<char>)>, values: Seq<Seq<char>>)
    ensures
        with_minted(names, values).len() >= names.len(),
    decreases values.len(),
{
    if values.len() > 0 {
        lemma_with_minted_grows(names, values.drop_last());
    }
}

/// Every minted name has its record, and the ids count up from 256.
pub proof fn law_minted_names_have_records(
    names: Seq<(NameKey, Seq<char>)>,
    values: Seq<Seq<char>>,
    j: int,
)
    requires
        values.len() <= 65280,
        0 <= j < values.len(),
    ensures
        exists|i: int|
            0 <= i < with_minted(names, values).len() && #[trigger] with_minted(names, values)[i]
                == (windows_key((256 + j) as u16, values[j], ENGLISH), values[j]),
    decreases values.len(),
{
    let rest = with_minted(names, values.drop_last());
    let all = with_minted(names, values);
    let key = windows_key((255 + values.len()) as u16, values.last(), ENGLISH);
    if j < values.len() - 1 {
        law_minted_names_have_records(names, values.drop_last(), j);
        let mine = (windows_key((256 + j) as u16, values[j], ENGLISH), values[j]);
        let i = choose|i: int| 0 <= i < rest.len() && #[trigger] rest[i] == mine;
        assert(mine.0.name_id != key.name_id);
        assert(all[i] == mine);
    } else if has_key(rest, key) {
        let i = choose|i: int| 0 <= i < rest.len() && (#[trigger] rest[i]).0 == key;
        assert(all[i] == (key, values[j]));
    } else {
        assert(all[rest.len() as int] == (key, values[j]));
    }
}

/// Everything that wants a name either shares a record or has one minted, and
/// nothing is minted twice.
pub proof fn law_wanted_names_are_shared_or_minted(
    names: Seq<(NameKey, String)>,
    wanted: Seq<Seq<char>>,
)
    ensures
        to_mint(names, wanted).no_duplicates(),
        forall|i: int|
            0 <= i < wanted.len() ==> shareable(names, #[trigger] wanted[i]) || to_mint(
                names,
                wanted,
            ).contains(wanted[i]),
        forall|i: int|
            0 <= i < to_mint(names, wanted).len() ==> !shareable(
                names,
                #[trigger] to_mint(names, wanted)[i],
            ),
    decreases wanted.len(),
{
    if wanted.len() > 0 {
        let before = wanted.drop_last();
        let rest = to_mint(names, before);
        let all = to_mint(names, wanted);
        law_wanted_names_are_shared_or_minted(names, before);
        assert forall|i: int| 0 <= i < wanted.len() implies shareable(names, #[trigger] wanted[i])
            || all.contains(wanted[i]) by {
            if i < before.len() {
                assert(before[i] == wanted[i]);
                if rest.contains(wanted[i]) {
                    let k = choose|k: int| 0 <= k < rest.len() && rest[k] == wanted[i];
                    assert(all[k] == wanted[i]);
                }
            } else if !shareable(names, wanted[i]) && !rest.contains(wanted[i]) {
                assert(all[rest.len() as int] == wanted[i]);
            }
        }
    }
}

/// An instance fvar lists is one the source declares, within every axis' range.
pub proof fn law_fvar_instances_are_within_ranges(
    axes: Seq<Axis>,
    instances: Seq<NamedInstance>,
    i: int,
)
    requires
        0 <= i < reaching_fvar(axes, instances).len(),
    ensures
        instances.contains(reaching_fvar(axes, instances)[i]),
        within_ranges(axes, reaching_fvar(axes, instances)[i].location@),
    decreases instances.len(),
{
    let rest = reaching_fvar(axes, instances.drop_last());
    if i < rest.len() {
        law_fvar_instances_are_within_ranges(axes, instances.drop_last(), i);
        let k = choose|k: int|
            0 <= k < instances.drop_last().len() && instances.drop_last()[k] == rest[i];
        assert(instances[k] == rest[i]);
    } else {
        assert(instances[instances.len() - 1] == instances.last());
    }
}

/// Whether an id stands under a value.
pub open spec fn provides(names: Seq<(NameKey, String)>, value: Seq<char>, id: NameId) -> bool {
    exists|i: int|
        0 <= i < names.len() && (#[trigger] names[i]).1@ == value && names[i].0.name_id == id
}

pub open spec fn ids_ascend(ids: Seq<NameId>) -> bool {
    forall|i: int, j: int| 0 <= i < j < ids.len() ==> ids[i] < ids[j]
}

/// A reverse lookup of a name table: each value once, and under it, in
/// ascending order, the ids of the records that hold it.
pub open spec fn reverses(
    names: Seq<(NameKey, String)>,
    r: Seq<(String, Vec<NameId>)>,
) -> bool {
    &&& lookup::distinct_names(r)
    &&& forall|i: int| 0 <= i < names.len() ==> lookup::named(r, (#[trigger] names[i]).1@) is Some
    &&& forall|k: int|
        0 <= k < r.len() ==> {
            &&& ids_ascend((#[trigger] r[k]).1@)
            &&& r[k].1@.len() > 0
            &&& forall|id: NameId| r[k].1@.contains(id) <==> provides(names, r[k].0@, id)
        }
}

/// Add an id to an ascending list of them.
fn add_id(ids: &mut Vec<NameId>, id: NameId)
    requires
        ids_ascend(old(ids)@),
    ensures
        ids_ascend(final(ids)@),
        final(ids)@.len() > 0,
        forall|x: NameId| final(ids)@.contains(x) <==> old(ids)@.contains(x) || x == id,
{
    let mut at: usize = 0;
    while at < ids.len() && ids[at] < id
        invariant
            at <= ids@.len(),
            *ids == *old(ids),
            forall|j: int| 0 <= j < at ==> ids@[j] < id,
        decreases ids.len() - at,
    {
        at = at + 1;
    }
    if at < ids.len() && ids[at] == id {
        assert(ids@.contains(id));
        return ;
    }
    let ghost before = ids@;
    ids.insert(at, id);
    proof {
        assert(ids@ =~= before.insert(at as int, id));
        assert(ids@[at as int] == id);
        assert forall|x: NameId| ids@.contains(x) <==> before.contains(x) || x == id by {
            if before.contains(x) {
                let k = choose|k: int| 0 <= k < before.len() && before[k] == x;
                assert(ids@[if k < at { k } else { k + 1 }] == x);
            }
            if ids@.contains(x) {
                let k = choose|k: int| 0 <= k < ids@.len() && ids@[k] == x;
                if k < at {
                    assert(before[k] == x);
                } else if k > at {
                    assert(before[k - 1] == x);
                }
            }
        }
    }
}

impl StaticMetadata {
    /// Name text mapped to the ascending ids of the records that provide it.
    pub fn reverse_names(&self) -> (r: Vec<(String, Vec<NameId>)>)
        ensures
            reverses(self.names@, r@),
    {
        let mut r: Vec<(String, Vec<NameId>)> = Vec::new();
        let mut i: usize = 0;
        while i < self.names.len()
            invariant
                i <= self.names@.len(),
                reverses(self.names@.take(i as int), r@),
            decreases self.names.len() - i,
        {
            let ghost seen = self.names@.take(i as int);
            let ghost now = self.names@.take(i + 1);
            let ghost before = r@;
            let key: NameKey = self.names[i].0;
            let value: &String = &self.names[i].1;
            proof {
                assert(now =~= seen.push(self.names@[i as int]));
                assert forall|v: Seq<char>, id: NameId| #[trigger] provides(now, v, id)
                    <==> provides(seen, v, id) || (v == value@ && id == key.name_id) by {
                    if provides(seen, v, id) {
                        let k = choose|k: int|
                            0 <= k < seen.len() && (#[trigger] seen[k]).1@ == v
                                && seen[k].0.name_id == id;
                        assert(now[k] == seen[k]);
                    }
                    assert(now[i as int] == self.names@[i as int]);
                    if provides(now, v, id) {
                        let k = choose|k: int|
                            0 <= k < now.len() && (#[trigger] now[k]).1@ == v
                                && now[k].0.name_id == id;
                        if k < i {
                            assert(seen[k] == now[k]);
                        }
                    }
                }
            }
            match lookup::find_named(&r, value) {
                Some(k) => {
                    add_id(&mut r[k].1, key.name_id);
                    proof {
                        assert(forall|j: int| 0 <= j < r@.len() ==> (#[trigger] r@[j]).0 == before[j].0);
                        assert forall|j: int| 0 <= j < r@.len() implies {
                            &&& ids_ascend((#[trigger] r@[j]).1@)
                            &&& r@[j].1@.len() > 0
                            &&& forall|id: NameId|
                                r@[j].1@.contains(id) <==> provides(now, r@[j].0@, id)
                        } by {
                            assert(ids_ascend(before[j].1@));
                            assert(before[j].0@ == value@ <==> j == k);
                        }
                    }
                },
                None => {
                    let mut ids: Vec<NameId> = Vec::new();
                    ids.push(key.name_id);
                    let ghost only = ids@;
                    r.push((value.clone(), ids));
                    proof {
                        let n = before.len() as int;
                        assert(only[0] == key.name_id);
                        assert forall|id: NameId| #[trigger] provides(seen, value@, id) implies false by {
                            let k = choose|k: int|
                                0 <= k < seen.len() && (#[trigger] seen[k]).1@ == value@
                                    && seen[k].0.name_id == id;
                            assert(lookup::named(before, seen[k].1@) is Some);
                        }
                        assert(r@[n].1@ == only);
                        assert forall|j: int| 0 <= j < r@.len() implies {
                            &&& ids_ascend((#[trigger] r@[j]).1@)
                            &&& r@[j].1@.len() > 0
                            &&& forall|id: NameId|
                                r@[j].1@.contains(id) <==> provides(now, r@[j].0@, id)
                        } by {
                            if j < n {
                                assert(r@[j] == before[j]);
                                assert(ids_ascend(before[j].1@));
                                assert(before[j].0@ != value@);
                            } else {
                                assert forall|id: NameId|
                                    r@[j].1@.contains(id) <==> provides(now, r@[j].0@, id) by {
                                    assert(!provides(seen, value@, id));
                                    assert(only.contains(id) <==> id == key.name_id);
                                }
                            }
                        }
                    }
                },
            }
            proof {
                assert forall|j: int| 0 <= j < now.len() implies lookup::named(
                    r@,
                    (#[trigger] now[j]).1@,
                ) is Some by {
                    let v = now[j].1@;
                    lookup::lemma_named_any(r@, v);
                    if j < i {
                        assert(seen[j] == now[j]);
                        assert(lookup::named(before, v) is Some);
                        lookup::lemma_named_any(before, v);
                        let k = choose|k: int| 0 <= k < before.len() && (#[trigger] before[k]).0@ == v;
                        assert(r@[k].0@ == v);
                    } else {
                        lookup::lemma_named_any(before, v);
                        if lookup::named(before, v) is Some {
                            let k = choose|k: int|
                                0 <= k < before.len() && (#[trigger] before[k]).0@ == v;
                            assert(r@[k].0@ == v);
                        } else {
                            assert(r@[before.len() as int].0@ == v);
                        }
                    }
                }
            }
            i = i + 1;
        }
        assert(self.names@.take(i as int) =~= self.names@);
        r
    }
}

/// The condition that an axis stays between two positions.
pub open spec fn range_condition(range: (String, (Real, Real))) -> Condition {
    Condition {
        axis: coords::tag_spelled(range.0@)->Ok_0,
        min: Some(range.1.0),
        max: Some(range.1.1),
    }
}

impl Rule {
    /// A rule with these ranges, each an axis and its two bounds, and these
    /// substitutions.
    pub fn for_test(
        condition_sets: &Vec<Vec<(String, (Real, Real))>>,
        subs: &Vec<(String, String)>,
    ) -> (r: Rule)
        requires
            forall|i: int, j: int|
                0 <= i < condition_sets@.len() && 0 <= j < condition_sets@[i]@.len()
                    ==> coords::tag_spelled((#[trigger] condition_sets@[i]@[j]).0@) is Ok,
        ensures
            r.conditions@.len() == condition_sets@.len(),
            forall|i: int|
                0 <= i < r.conditions@.len() ==> (#[trigger] r.conditions@[i])@.to_multiset()
                    == condition_sets@[i]@.map_values(
                    |c: (String, (Real, Real))| range_condition(c),
                ).to_multiset(),
            r.substitutions@.len() == subs@.len(),
            forall|i: int|
                0 <= i < subs@.len() ==> (#[trigger] r.substitutions@[i]).replace@ == subs@[i].0@
                    && r.substitutions@[i].with@ == subs@[i].1@,
    {
        let mut conditions: Vec<ConditionSet> = Vec::new();
        let mut i: usize = 0;
        while i < condition_sets.len()
            invariant
                i <= condition_sets@.len(),
                conditions@.len() == i,
                forall|i: int, j: int|
                    0 <= i < condition_sets@.len() && 0 <= j < condition_sets@[i]@.len()
                        ==> coords::tag_spelled((#[trigger] condition_sets@[i]@[j]).0@) is Ok,
                forall|k: int|
                    0 <= k < i ==> (#[trigger] conditions@[k])@.to_multiset()
                        == condition_sets@[k]@.map_values(
                        |c: (String, (Real, Real))| range_condition(c),
                    ).to_multiset(),
            decreases condition_sets.len() - i,
        {
            let ranges: &Vec<(String, (Real, Real))> = &condition_sets[i];
            let mut set: Vec<Condition> = Vec::new();
            let mut j: usize = 0;
            while j < ranges.len()
                invariant
                    j <= ranges@.len(),
                    i < condition_sets@.len(),
                    *ranges == condition_sets@[i as int],
                    forall|i: int, j: int|
                        0 <= i < condition_sets@.len() && 0 <= j < condition_sets@[i]@.len()
                            ==> coords::tag_spelled((#[trigger] condition_sets@[i]@[j]).0@) is Ok,
                    set@.len() == j,
                    forall|k: int|
                        0 <= k < j ==> #[trigger] set@[k] == range_condition(ranges@[k]),
                decreases ranges.len() - j,
            {
                assert(coords::tag_spelled(condition_sets@[i as int]@[j as int].0@) is Ok);
                if let Ok(axis) = Tag::parse(ranges[j].0.as_str()) {
                    set.push(Condition::new(axis, Some(ranges[j].1.0), Some(ranges[j].1.1)));
                }
                j = j + 1;
            }
            assert(set@ =~= ranges@.map_values(|c: (String, (Real, Real))| range_condition(c)));
            conditions.push(ConditionSet::from_conditions(set));
            i = i + 1;
        }
        let mut substitutions: Vec<Substitution> = Vec::new();
        let mut k: usize = 0;
        while k < subs.len()
            invariant
                k <= subs@.len(),
                substitutions@.len() == k,
                forall|i: int|
                    0 <= i < k ==> (#[trigger] substitutions@[i]).replace@ == subs@[i].0@
                        && substitutions@[i].with@ == subs@[i].1@,
            decreases subs.len() - k,
        {
            substitutions.push(
                Substitution { replace: subs[k].0.clone(), with: subs[k].1.clone() },
            );
            k = k + 1;
        }
        Rule { conditions, substitutions }
    }
}

/// A style is stated by its name in any mixture of small and capital letters,
/// with white space around it or not.
pub proof fn law_styles_are_stated_by_their_names(
    front: Seq<char>,
    name: Seq<char>,
    back: Seq<char>,
)
    requires
        forall|i: int| 0 <= i < front.len() ==> text::is_white(#[trigger] front[i]),
        forall|i: int| 0 <= i < back.len() ==> text::is_white(#[trigger] back[i]),
    ensures
        text::spelled_in_any_case(name, "regular"@, "REGULAR"@) ==> style_stated(front + name + back)
            == Some(StyleMapStyle::Regular),
        text::spelled_in_any_case(name, "italic"@, "ITALIC"@) ==> style_stated(front + name + back)
            == Some(StyleMapStyle::Italic),
        text::spelled_in_any_case(name, "bold"@, "BOLD"@) ==> style_stated(front + name + back)
            == Some(StyleMapStyle::Bold),
        text::spelled_in_any_case(name, "bold italic"@, "BOLD ITALIC"@) ==> style_stated(
            front + name + back,
        ) == Some(StyleMapStyle::BoldItalic),
{
    reveal_strlit("regular");
    reveal_strlit("REGULAR");
    reveal_strlit("italic");
    reveal_strlit("ITALIC");
    reveal_strlit("bold");
    reveal_strlit("BOLD");
    reveal_strlit("bold italic");
    reveal_strlit("BOLD ITALIC");
    assert("regular"@.len() == 7 && "italic"@.len() == 6 && "bold"@.len() == 4 && "bold italic"@.len()
        == 11);
    if text::spelled_in_any_case(name, "regular"@, "REGULAR"@) {
        text::law_only_white_space_around_text_is_trimmed(front, name, back);
        text::law_ascii_text_is_put_in_small_letters(name, "regular"@, "REGULAR"@);
    }
    if text::spelled_in_any_case(name, "italic"@, "ITALIC"@) {
        text::law_only_white_space_around_text_is_trimmed(front, name, back);
        text::law_ascii_text_is_put_in_small_letters(name, "italic"@, "ITALIC"@);
    }
    if text::spelled_in_any_case(name, "bold"@, "BOLD"@) {
        text::law_only_white_space_around_text_is_trimmed(front, name, back);
        text::law_ascii_text_is_put_in_small_letters(name, "bold"@, "BOLD"@);
    }
    if text::spelled_in_any_case(name, "bold italic"@, "BOLD ITALIC"@) {
        text::law_only_white_space_around_text_is_trimmed(front, name, back);
        text::law_ascii_text_is_put_in_small_letters(name, "bold italic"@, "BOLD ITALIC"@);
    }
}

/// Regular is bit 6 of the selection flags, bold bit 5 and italic bit 0, and
/// bold italic is both of the latter.
pub proof fn law_styles_have_their_bits(style: StyleMapStyle)
    ensures
        style_flags(style) == match style {
            StyleMapStyle::Regular => 0x40u16,
            StyleMapStyle::Italic => 0x01u16,
            StyleMapStyle::Bold => 0x20u16,
            StyleMapStyle::BoldItalic => 0x21u16,
        },
        style_name(style) == match style {
            StyleMapStyle::Regular => "Regular"@,
            StyleMapStyle::Italic => "Italic"@,
            StyleMapStyle::Bold => "Bold"@,
            StyleMapStyle::BoldItalic => "Bold Italic"@,
        },
{
    assert(0x20u16 | 0x01u16 == 0x21u16) by (bit_vector);
}

/// A Windows record is for the Basic Multilingual Plane exactly if no character
/// of its value is beyond U+FFFF.
pub proof fn law_windows_encodings_go_by_the_value(id: NameId, value: Seq<char>, lang: u16)
    ensures
        windows_key(id, value, lang).name_id == id,
        windows_key(id, value, lang).platform_id == 3,
        windows_key(id, value, lang).lang_id == lang,
        (forall|i: int| 0 <= i < value.len() ==> (#[trigger] value[i] as u32) <= 0xffff)
            ==> windows_key(id, value, lang).encoding_id == 1,
        (exists|i: int| 0 <= i < value.len() && (#[trigger] value[i] as u32) > 0xffff)
            ==> windows_key(id, value, lang).encoding_id == 10,
{
}

/// The digits of a PANOSE are in the order of the `OS/2` table, whichever way
/// they are read.
pub proof fn law_panose_digits_are_in_table_order(p: Panose, bytes: [u8; 10])
    ensures
        p@ == seq![
            p.family_type,
            p.serif_style,
            p.weight,
            p.proportion,
            p.contrast,
            p.stroke_variation,
            p.arm_style,
            p.letterform,
            p.midline,
            p.x_height,
        ],
        <Panose as vstd::std_specs::convert::FromSpec<[u8; 10]>>::from_spec(bytes)@ == bytes@,
{
    assert(<Panose as vstd::std_specs::convert::FromSpec<[u8; 10]>>::from_spec(bytes)@ =~= bytes@);
}

/// A digit that all masters agree on is the merged one, a digit that any two
/// differ in is zero, and nothing is left if every digit is zero.
pub proof fn law_a_digit_is_merged_if_all_agree(masters: Seq<Seq<u8>>, d: int)
    requires
        0 <= d < 10,
    ensures
        masters.len() == 0 ==> merged(masters) is None,
        masters.len() > 0 && (forall|m: int|
            0 <= m < masters.len() ==> (#[trigger] masters[m])[d] == masters[0][d]) && masters[0][d]
            != 0 ==> (merged(masters) matches Some(digits) && digits[d] == masters[0][d]),
        forall|m: int|
            0 <= m < masters.len() && (#[trigger] masters[m])[d] != masters[0][d] ==> (merged(masters) matches Some(
                digits,
            ) ==> digits[d] == 0),
        merged(masters) matches Some(digits) ==> exists|e: int|
            0 <= e < 10 && #[trigger] digits[e] != 0,
{
    if masters.len() > 0 && (forall|m: int|
        0 <= m < masters.len() ==> (#[trigger] masters[m])[d] == masters[0][d]) && masters[0][d]
        != 0 {
        assert(shared_digits(masters)[d] != 0);
    }
}

/// Conditions come in order of axis. On one axis the lower bound decides, then
/// the upper one, and a bound that is not stated comes first.
pub proof fn law_conditions_are_in_order_of_axis_and_bounds(a: Condition, b: Condition)
    ensures
        a.axis.0 < b.axis.0 ==> condition_le(a, b) && !condition_le(b, a),
        a.axis == b.axis && a.min is None && b.min is Some ==> condition_le(a, b) && !condition_le(
            b,
            a,
        ),
        a.axis == b.axis && a.min is Some && b.min is Some && a.min->0 < b.min->0 ==> condition_le(
            a,
            b,
        ) && !condition_le(b, a),
        a.axis == b.axis && a.min == b.min && a.max is None && b.max is Some ==> condition_le(a, b)
            && !condition_le(b, a),
        a.axis == b.axis && a.min == b.min && a.max is Some && b.max is Some && a.max->0
            < b.max->0 ==> condition_le(a, b) && !condition_le(b, a),
        condition_le(a, a),
{
}

/// Settings that say the same agree on each of their values.
pub proof fn law_settings_that_say_the_same_agree_on_everything(
    a: PostscriptSettings,
    b: PostscriptSettings,
)
    requires
        a.same_as(&b),
    ensures
        a.blue_values@ == b.blue_values@ && a.other_blues@ == b.other_blues@,
        a.family_blues@ == b.family_blues@ && a.family_other_blues@ == b.family_other_blues@,
        a.blue_scale == b.blue_scale && a.blue_shift == b.blue_shift && a.blue_fuzz == b.blue_fuzz,
        a.stem_snap_h@ == b.stem_snap_h@ && a.stem_snap_v@ == b.stem_snap_v@,
        a.force_bold == b.force_bold,
        a.weight_name == b.weight_name && a.os2_weight_class == b.os2_weight_class,
        a.full_name == b.full_name,
        a.default_width_x == b.default_width_x && a.nominal_width_x == b.nominal_width_x,
{
}

/// Metadata that says the same agrees on each of its values.
pub proof fn law_metadata_that_says_the_same_agrees_on_everything(a: MiscMetadata, b: MiscMetadata)
    requires
        a.same_as(&b),
    ensures
        a.fs_type == b.fs_type && a.is_fixed_pitch == b.is_fixed_pitch,
        a.selection_flags == b.selection_flags,
        a.vendor_id == b.vendor_id && a.raw_vendor_id == b.raw_vendor_id,
        a.version_major == b.version_major && a.version_minor == b.version_minor,
        a.head_flags == b.head_flags && a.lowest_rec_ppm == b.lowest_rec_ppm,
        a.created == b.created && a.family_class == b.family_class,
        a.panose == b.panose && a.instance_panose == b.instance_panose,
        a.us_weight_class == b.us_weight_class && a.us_width_class == b.us_width_class,
        a.gasp@ == b.gasp@,
        a.unicode_range_bits is Some <==> b.unicode_range_bits is Some,
        a.unicode_range_bits is Some ==> a.unicode_range_bits->0@ == b.unicode_range_bits->0@,
        a.codepage_range_bits is Some <==> b.codepage_range_bits is Some,
        a.codepage_range_bits is Some ==> a.codepage_range_bits->0@ == b.codepage_range_bits->0@,
        a.meta_table is Some <==> b.meta_table is Some,
        a.meta_table is Some ==> a.meta_table->0.dlng@ == b.meta_table->0.dlng@
            && a.meta_table->0.slng@ == b.meta_table->0.slng@,
        a.feature_generation is Some <==> b.feature_generation is Some,
        a.feature_generation is Some ==> a.feature_generation->0@.len()
            == b.feature_generation->0@.len(),
        forall|i: int|
            a.feature_generation is Some && 0 <= i < a.feature_generation->0@.len() ==> (
            #[trigger] a.feature_generation->0@[i]).writer == b.feature_generation->0@[i].writer
                && a.feature_generation->0@[i].mode == b.feature_generation->0@[i].mode,
{
    assert forall|i: int|
        a.feature_generation is Some && 0 <= i < a.feature_generation->0@.len() implies (
    #[trigger] a.feature_generation->0@[i]).writer == b.feature_generation->0@[i].writer
        && a.feature_generation->0@[i].mode == b.feature_generation->0@[i].mode by {
        assert(a.feature_generation->0@[i].same_as(&b.feature_generation->0@[i]));
    }
}

/// A record that is set is there with its value, every record under another key
/// stays where it was, and only a new key makes the table longer.
pub proof fn law_setting_a_record_changes_that_record(
    names: Seq<(NameKey, Seq<char>)>,
    key: NameKey,
    value: Seq<char>,
    i: int,
)
    ensures
        exists|k: int|
            0 <= k < put(names, key, value).len() && #[trigger] put(names, key, value)[k] == (
                key,
                value,
            ),
        0 <= i < names.len() && names[i].0 != key ==> i < put(names, key, value).len() && put(
            names,
            key,
            value,
        )[i] == names[i],
        0 <= i < names.len() && names[i].0 == key ==> put(names, key, value).len() == names.len()
            && put(names, key, value)[i] == (key, value),
        (forall|k: int| 0 <= k < names.len() ==> (#[trigger] names[k]).0 != key) ==> put(
            names,
            key,
            value,
        ) == names.push((key, value)),
{
    let after = put(names, key, value);
    if has_key(names, key) {
        let k = choose|k: int| 0 <= k < names.len() && (#[trigger] names[k]).0 == key;
        assert(after[k] == (key, value));
    } else {
        assert(after[names.len() as int] == (key, value));
        if 0 <= i < names.len() {
            assert(names[i].0 != key);
        }
    }
}

/// An instance reaches fvar exactly if, on every axis that its location names,
/// it is neither below the minimum nor above the maximum.
pub proof fn law_instances_within_every_range_reach_fvar(
    axes: Seq<Axis>,
    instances: Seq<NamedInstance>,
    instance: NamedInstance,
)
    ensures
        reaching_fvar(axes, Seq::empty()).len() == 0,
        (forall|i: int|
            0 <= i < axes.len() && instance.location@.contains_key((#[trigger] axes[i]).tag)
                ==> axes[i].min <= instance.location@[axes[i].tag]
                && instance.location@[axes[i].tag] <= axes[i].max) ==> reaching_fvar(
            axes,
            instances.push(instance),
        ) == reaching_fvar(axes, instances).push(instance),
        (exists|i: int|
            0 <= i < axes.len() && instance.location@.contains_key((#[trigger] axes[i]).tag) && (
            instance.location@[axes[i].tag] < axes[i].min || axes[i].max
                < instance.location@[axes[i].tag])) ==> reaching_fvar(axes, instances.push(instance))
            == reaching_fvar(axes, instances),
{
    assert(instances.push(instance).drop_last() =~= instances);
}

/// The default position has the default of each axis.
pub proof fn law_the_default_position_has_each_default(axes: Seq<Axis>, i: int)
    requires
        0 <= i < axes.len(),
        forall|a: int, b: int| 0 <= a < b < axes.len() ==> axes[a].tag != axes[b].tag,
    ensures
        defaults_of(axes).contains_key(axes[i].tag),
        defaults_of(axes)[axes[i].tag] == axes[i].default,
    decreases axes.len(),
{
    let last = axes.len() - 1;
    if i < last {
        let rest = axes.drop_last();
        assert(rest[i] == axes[i]);
        assert forall|a: int, b: int| 0 <= a < b < rest.len() implies rest[a].tag != rest[b].tag by {
            assert(axes[a].tag != axes[b].tag);
        }
        law_the_default_position_has_each_default(rest, i);
        assert(axes[i].tag != axes[last].tag);
    }
}

/// An instance wants its name and its PostScript name, if it has one. Only one
/// at the default position, whose name the table first has as a subfamily (2)
/// or typographic subfamily (17), wants no name of its own.
pub proof fn law_instances_want_their_names(
    instances: Seq<NamedInstance>,
    instance: NamedInstance,
    axes: Seq<Axis>,
    names: Seq<(NameKey, String)>,
)
    ensures
        instance_names(Seq::empty(), axes, names).len() == 0,
        ({
            let before = instance_names(instances, axes, names);
            let id = id_of_value(names, instance.name@);
            let goes_by_another = instance.location@ == defaults_of(axes) && (id == Some(2u16) || id
                == Some(17u16));
            let named = if goes_by_another {
                before
            } else {
                before.push(instance.name@)
            };
            instance_names(instances.push(instance), axes, names) == match instance.postscript_name {
                Some(name) => named.push(name@),
                None => named,
            }
        }),
{
    assert(instances.push(instance).drop_last() =~= instances);
}

/// The id that stands for a value is that of the first record that holds it.
pub proof fn law_the_first_record_with_a_value_gives_its_id(
    names: Seq<(NameKey, String)>,
    value: Seq<char>,
    k: int,
)
    ensures
        0 <= k < names.len() && names[k].1@ == value && (forall|i: int|
            0 <= i < k ==> (#[trigger] names[i]).1@ != value) ==> id_of_value(names, value) == Some(
            names[k].0.name_id,
        ),
        (forall|i: int| 0 <= i < names.len() ==> (#[trigger] names[i]).1@ != value) ==> id_of_value(
            names,
            value,
        ) is None,
    decreases names.len(),
{
    if names.len() > 0 {
        let rest = names.skip(1);
        law_the_first_record_with_a_value_gives_its_id(rest, value, k - 1);
        if 0 < k < names.len() {
            assert(rest[k - 1] == names[k]);
            if forall|i: int| 0 <= i < k ==> (#[trigger] names[i]).1@ != value {
                assert forall|i: int| 0 <= i < k - 1 implies (#[trigger] rest[i]).1@ != value by {
                    assert(rest[i] == names[i + 1]);
                }
            }
        }
        if forall|i: int| 0 <= i < names.len() ==> (#[trigger] names[i]).1@ != value {
            assert forall|i: int| 0 <= i < rest.len() implies (#[trigger] rest[i]).1@ != value by {
                assert(rest[i] == names[i + 1]);
            }
        }
    }
}

/// A name is shared with a record under an id above 255, and only with such a
/// one. Any other is minted where it is first wanted.
pub proof fn law_names_are_minted_where_first_wanted(
    names: Seq<(NameKey, String)>,
    wanted: Seq<Seq<char>>,
    name: Seq<char>,
)
    ensures
        to_mint(names, Seq::empty()).len() == 0,
        (exists|i: int|
            0 <= i < names.len() && (#[trigger] names[i]).0.name_id >= 256 && names[i].1@ == name)
            ==> to_mint(names, wanted.push(name)) == to_mint(names, wanted),
        (forall|i: int|
            0 <= i < names.len() && (#[trigger] names[i]).1@ == name ==> names[i].0.name_id < 256)
            ==> to_mint(names, wanted.push(name)) == if to_mint(names, wanted).contains(name) {
            to_mint(names, wanted)
        } else {
            to_mint(names, wanted).push(name)
        },
{
    assert(wanted.push(name).drop_last() =~= wanted);
    if forall|i: int|
        0 <= i < names.len() && (#[trigger] names[i]).1@ == name ==> names[i].0.name_id < 256 {
        assert(!shareable(names, name));
    }
}

/// The labels of the axes are wanted first, in order, then what instances want.
pub proof fn law_axes_are_named_first(
    axes: Seq<Axis>,
    instances: Seq<NamedInstance>,
    names: Seq<(NameKey, String)>,
    i: int,
)
    requires
        0 <= i < axes.len(),
    ensures
        wanted_names(axes, instances, names).len() == axes.len() + instance_names(
            reaching_fvar(axes, instances),
            axes,
            names,
        ).len(),
        wanted_names(axes, instances, names)[i] == axes[i].ui_label_name@,
        wanted_names(axes, instances, names).skip(axes.len() as int) == instance_names(
            reaching_fvar(axes, instances),
            axes,
            names,
        ),
{
    assert(wanted_names(axes, instances, names).skip(axes.len() as int) =~= instance_names(
        reaching_fvar(axes, instances),
        axes,
        names,
    ));
}

/// A font has all axes of its source if any of them has a range, and none if
/// none has.
pub proof fn law_one_axis_that_varies_keeps_them_all(source: Seq<Axis>, axes: Seq<Axis>)
    requires
        font_axes(source, axes),
    ensures
        (exists|i: int|
            0 <= i < source.len() && ((#[trigger] source[i]).min != source[i].default
                || source[i].default != source[i].max)) ==> coords::same_axes(axes, source),
        (forall|i: int|
            0 <= i < source.len() ==> (#[trigger] source[i]).min == source[i].default
                && source[i].default == source[i].max) ==> axes.len() == 0,
{
    if exists|i: int|
        0 <= i < source.len() && ((#[trigger] source[i]).min != source[i].default
            || source[i].default != source[i].max) {
        let i = choose|i: int|
            0 <= i < source.len() && ((#[trigger] source[i]).min != source[i].default
                || source[i].default != source[i].max);
        assert(!source[i].point());
    } else {
        assert forall|i: int| 0 <= i < source.len() implies (#[trigger] source[i]).point() by {}
    }
}

/// Instances of a variable font stay what they are and where they are, on the
/// axes of the font alone. A static font has none.
pub proof fn law_instances_stay_where_they_are_on_the_axes(
    before: Seq<NamedInstance>,
    after: Seq<NamedInstance>,
    axes: Seq<Axis>,
    i: int,
    t: Tag,
)
    requires
        on_axes(before, after, axes),
        0 <= i < before.len(),
    ensures
        axes.len() == 0 ==> after.len() == 0,
        axes.len() > 0 ==> {
            &&& after.len() == before.len()
            &&& after[i].location@.contains_key(t) <==> before[i].location@.contains_key(t)
                && exists|a: int| 0 <= a < axes.len() && (#[trigger] axes[a]).tag == t
            &&& after[i].location@.contains_key(t) ==> after[i].location@[t]
                == before[i].location@[t]
            &&& after[i].name == before[i].name
            &&& after[i].postscript_name == before[i].postscript_name
            &&& after[i].family_name == before[i].family_name
            &&& after[i].style_map_family_name == before[i].style_map_family_name
            &&& after[i].style_map_style_name == before[i].style_map_style_name
            &&& after[i].overrides == before[i].overrides
        },
{
    if axes.len() > 0 {
        let tags = coords::tags_of(axes);
        assert(after[i].location@ == before[i].location@.restrict(tags.to_set()));
        if tags.contains(t) {
            let a = choose|a: int| 0 <= a < tags.len() && tags[a] == t;
            assert(axes[a].tag == t);
        }
        if exists|a: int| 0 <= a < axes.len() && (#[trigger] axes[a]).tag == t {
            let a = choose|a: int| 0 <= a < axes.len() && (#[trigger] axes[a]).tag == t;
            assert(tags[a] == t);
        }
    }
}

/// A font that says nothing more is of no vendor and no version, is readable
/// from 6 pixels per em on, and has its baseline and left sidebearings at zero.
pub proof fn law_what_goes_without_saying(misc: MiscMetadata)
    requires
        plain_misc(misc),
    ensures
        misc.lowest_rec_ppm == 6,
        misc.head_flags == 3,
        misc.vendor_id.0 == 0x4E4F4E45,
        misc.version_major == 0 && misc.version_minor == 0,
        misc.selection_flags == 0,
        misc.fs_type is None && misc.panose is None && misc.instance_panose is None,
        misc.us_weight_class is None && misc.us_width_class is None,
        misc.is_fixed_pitch is None && misc.meta_table is None,
        misc.raw_vendor_id is None && misc.created is None && misc.family_class is None,
        misc.unicode_range_bits is None && misc.codepage_range_bits is None,
        misc.gasp@.len() == 0 && misc.feature_generation is None,
{
    assert(1u16 | 2u16 == 3u16) by (bit_vector);
}

/// What a source may leave out is the same only if both leave it out, or both
/// say it and say the same.
pub proof fn law_what_is_left_out_is_left_out_in_both(
    a: Option<Vec<FeatureWriterSpec>>,
    b: Option<Vec<FeatureWriterSpec>>,
    c: Option<Vec<u32>>,
    d: Option<Vec<u32>>,
    e: Option<MetaTableValues>,
    f: Option<MetaTableValues>,
    i: int,
)
    ensures
        same_writers(a, b) ==> (a is Some <==> b is Some),
        same_writers(a, b) && a is Some ==> a->0@.len() == b->0@.len(),
        same_writers(a, b) && a is Some && 0 <= i < a->0@.len() ==> a->0@[i].same_as(&b->0@[i]),
        same_bits(c, d) ==> (c is Some <==> d is Some),
        same_bits(c, d) && c is Some ==> c->0@ == d->0@,
        same_meta(e, f) ==> (e is Some <==> f is Some),
        same_meta(e, f) && e is Some ==> e->0.same_as(&f->0),
        same_writers(None, None),
        same_bits(None, None),
        same_meta(None, None),
{
}

} // verus!
