//! What goes into a `CFF ` table: the Private DICT, the strings of the Top
//! DICT, and the contours of each glyph.

use crate::coords;
use crate::coords::Real;
use crate::error::Error;
use crate::lookup;
use crate::numeric;
use crate::static_metadata::{
    NameId, NameKey, PostscriptSettings, StaticMetadata, COPYRIGHT_NOTICE, ENGLISH, FAMILY_NAME,
    POSTSCRIPT_NAME, SUBFAMILY_NAME, TRADEMARK, TYPOGRAPHIC_FAMILY_NAME,
    TYPOGRAPHIC_SUBFAMILY_NAME,
};
use crate::text;
use vstd::prelude::*;
use vstd::string::*;

verus! {

/// The entries of a Private DICT. A list without elements is not written.
#[derive(Debug, Default, PartialEq, Eq)]
pub struct PrivateDictValues {
    pub blue_values: Vec<i32>,
    pub other_blues: Vec<i32>,
    pub family_blues: Vec<i32>,
    pub family_other_blues: Vec<i32>,
    pub blue_scale: Option<Real>,
    pub blue_shift: Option<i32>,
    pub blue_fuzz: Option<i32>,
    pub force_bold: Option<bool>,
    pub std_hw: Option<i32>,
    pub std_vw: Option<i32>,
    pub stem_snap_h: Vec<i32>,
    pub stem_snap_v: Vec<i32>,
    pub default_width_x: Option<i32>,
    pub nominal_width_x: Option<i32>,
}

pub open spec fn or_else<T>(stated: Option<T>, fallback: T) -> T {
    match stated {
        Some(v) => v,
        None => fallback,
    }
}

pub open spec fn ascend(values: Seq<i32>) -> bool {
    forall|i: int, j: int| 0 <= i < j < values.len() ==> values[i] <= values[j]
}

/// `sorted` holds the elements of `values` in ascending order.
pub open spec fn sorts(values: Seq<i32>, sorted: Seq<i32>) -> bool {
    ascend(sorted) && sorted.to_multiset() == values.to_multiset()
}

/// Numbers, each rounded.
pub open spec fn rounded<R: Fn(Real) -> i32>(round: R, values: Seq<Real>) -> Seq<i32> {
    values.map_values(|v: Real| numeric::image(round, v))
}

/// A number rounded, if there is one.
pub open spec fn rounded_or<R: Fn(Real) -> i32>(
    round: R,
    value: Option<Real>,
    fallback: i32,
) -> i32 {
    match value {
        Some(v) => numeric::image(round, v),
        None => fallback,
    }
}

/// `r` may be what `f` makes of these blues.
pub open spec fn scales_to<F: Fn(&Vec<Real>, &Vec<Real>) -> Real>(
    f: F,
    blue_values: Seq<Real>,
    other_blues: Seq<Real>,
    r: Real,
) -> bool {
    exists|a: Vec<Real>, b: Vec<Real>|
        a@ == blue_values && b@ == other_blues && #[trigger] call_ensures(f, (&a, &b), r)
}

/// `f` gives one answer for all blues: 3/(4 × their tallest zone), or the CFF
/// default if they have none.
pub open spec fn is_blue_scale<F: Fn(&Vec<Real>, &Vec<Real>) -> Real>(f: F) -> bool {
    &&& forall|a: Vec<Real>, b: Vec<Real>| call_requires(f, (&a, &b))
    &&& forall|blue_values: Seq<Real>, other_blues: Seq<Real>, x: Real, y: Real| #[trigger]
        scales_to(f, blue_values, other_blues, x) && #[trigger] scales_to(
            f,
            blue_values,
            other_blues,
            y,
        ) ==> x == y
}

/// What `f` makes of these blues.
pub open spec fn blue_scale_of<F: Fn(&Vec<Real>, &Vec<Real>) -> Real>(
    f: F,
    blue_values: Seq<Real>,
    other_blues: Seq<Real>,
) -> Real {
    choose|r: Real| scales_to(f, blue_values, other_blues, r)
}

/// At least one list of blues has an element.
pub open spec fn has_blues(ps: PostscriptSettings) -> bool {
    ps.blue_values@.len() > 0 || ps.other_blues@.len() > 0 || ps.family_blues@.len() > 0
        || ps.family_other_blues@.len() > 0
}

/// Both lists of stems have an element.
pub open spec fn has_stems(ps: PostscriptSettings) -> bool {
    ps.stem_snap_h@.len() > 0 && ps.stem_snap_v@.len() > 0
}

/// The blues of a Private DICT: the lists and their scalars, with fallbacks of
/// 0 for the fuzz and 7 for the shift, or nothing at all without any blues.
pub open spec fn blues_of<R: Fn(Real) -> i32, F: Fn(&Vec<Real>, &Vec<Real>) -> Real>(
    round: R,
    fallback: F,
    ps: PostscriptSettings,
    r: PrivateDictValues,
) -> bool {
    if has_blues(ps) {
        &&& r.blue_values@ == rounded(round, ps.blue_values@)
        &&& r.other_blues@ == rounded(round, ps.other_blues@)
        &&& r.family_blues@ == rounded(round, ps.family_blues@)
        &&& r.family_other_blues@ == rounded(round, ps.family_other_blues@)
        &&& r.blue_fuzz == Some(rounded_or(round, ps.blue_fuzz, 0))
        &&& r.blue_shift == Some(rounded_or(round, ps.blue_shift, 7))
        &&& r.blue_scale == Some(
            or_else(
                ps.blue_scale,
                blue_scale_of(fallback, ps.blue_values@, ps.other_blues@),
            ),
        )
        &&& r.force_bold == Some(or_else(ps.force_bold, false))
    } else {
        &&& r.blue_values@.len() == 0
        &&& r.other_blues@.len() == 0
        &&& r.family_blues@.len() == 0
        &&& r.family_other_blues@.len() == 0
        &&& r.blue_fuzz is None
        &&& r.blue_shift is None
        &&& r.blue_scale is None
        &&& r.force_bold is None
    }
}

/// The stems of a Private DICT: the lists sorted, and the first of each before
/// sorting, or nothing at all unless both directions have some.
pub open spec fn stems_of<R: Fn(Real) -> i32>(
    round: R,
    ps: PostscriptSettings,
    r: PrivateDictValues,
) -> bool {
    if has_stems(ps) {
        &&& r.std_hw == Some(numeric::image(round, ps.stem_snap_h@[0]))
        &&& r.std_vw == Some(numeric::image(round, ps.stem_snap_v@[0]))
        &&& sorts(rounded(round, ps.stem_snap_h@), r.stem_snap_h@)
        &&& sorts(rounded(round, ps.stem_snap_v@), r.stem_snap_v@)
    } else {
        &&& r.std_hw is None
        &&& r.std_vw is None
        &&& r.stem_snap_h@.len() == 0
        &&& r.stem_snap_v@.len() == 0
    }
}

/// The widths of a Private DICT: both or neither, with fallbacks of 200 and 0.
pub open spec fn widths_of<R: Fn(Real) -> i32>(
    round: R,
    ps: PostscriptSettings,
    r: PrivateDictValues,
) -> bool {
    if ps.default_width_x is Some || ps.nominal_width_x is Some {
        &&& r.default_width_x == Some(rounded_or(round, ps.default_width_x, 200))
        &&& r.nominal_width_x == Some(rounded_or(round, ps.nominal_width_x, 0))
    } else {
        r.default_width_x is None && r.nominal_width_x is None
    }
}

/// `r` is the Private DICT of a master with these settings.
pub open spec fn is_private_dict_of<R: Fn(Real) -> i32, F: Fn(&Vec<Real>, &Vec<Real>) -> Real>(
    round: R,
    fallback: F,
    ps: PostscriptSettings,
    r: PrivateDictValues,
) -> bool {
    &&& blues_of(round, fallback, ps, r)
    &&& stems_of(round, ps, r)
    &&& widths_of(round, ps, r)
}

fn round_all<R: Fn(Real) -> i32>(values: &Vec<Real>, round: &R) -> (r: Vec<i32>)
    requires
        numeric::is_map(*round),
    ensures
        r@ == rounded(*round, values@),
{
    let mut r: Vec<i32> = Vec::new();
    let mut i: usize = 0;
    while i < values.len()
        invariant
            i <= values@.len(),
            numeric::is_map(*round),
            r@ =~= rounded(*round, values@).take(i as int),
        decreases values.len() - i,
    {
        r.push(numeric::apply(round, values[i]));
        i = i + 1;
    }
    assert(r@ =~= rounded(*round, values@));
    r
}

fn round_or<R: Fn(Real) -> i32>(value: Option<Real>, fallback: i32, round: &R) -> (r: i32)
    requires
        numeric::is_map(*round),
    ensures
        r == rounded_or(*round, value, fallback),
{
    match value {
        Some(v) => numeric::apply(round, v),
        None => fallback,
    }
}

pub(crate) fn copy_ints(values: &Vec<i32>) -> (r: Vec<i32>)
    ensures
        r@ == values@,
{
    let mut r: Vec<i32> = Vec::new();
    let mut i: usize = 0;
    while i < values.len()
        invariant
            i <= values@.len(),
            r@ =~= values@.take(i as int),
        decreases values.len() - i,
    {
        r.push(values[i]);
        i = i + 1;
    }
    assert(r@ =~= values@);
    r
}

/// The elements in ascending order.
fn sort_ints(values: &Vec<i32>) -> (r: Vec<i32>)
    ensures
        sorts(values@, r@),
{
    let mut sorted: Vec<i32> = Vec::new();
    let mut i: usize = 0;
    assert(values@.take(0) =~= Seq::<i32>::empty());
    while i < values.len()
        invariant
            i <= values@.len(),
            ascend(sorted@),
            sorted@.to_multiset() == values@.take(i as int).to_multiset(),
        decreases values.len() - i,
    {
        let v: i32 = values[i];
        let mut at: usize = 0;
        while at < sorted.len() && sorted[at] <= v
            invariant
                at <= sorted@.len(),
                forall|j: int| 0 <= j < at ==> sorted@[j] <= v,
            decreases sorted.len() - at,
        {
            at = at + 1;
        }
        let ghost before = sorted@;
        sorted.insert(at, v);
        proof {
            assert(sorted@ =~= before.insert(at as int, v));
            assert(values@.take(i + 1) =~= values@.take(i as int).push(v));
            vstd::seq_lib::to_multiset_insert(before, at as int, v);
            vstd::seq_lib::to_multiset_build(values@.take(i as int), v);
        }
        i = i + 1;
    }
    assert(values@.take(values@.len() as int) =~= values@);
    sorted
}

/// The Private DICT of a master.
///
/// Every length is rounded. The blue-related scalars are there only if there
/// are any blues, and stems only if both directions have some. `fallback` is
/// the scale that unrounded blues imply, if the settings state none.
pub fn private_dict_values<R: Fn(Real) -> i32, F: Fn(&Vec<Real>, &Vec<Real>) -> Real>(
    ps: &PostscriptSettings,
    round: &R,
    fallback: &F,
) -> (r: PrivateDictValues)
    requires
        numeric::is_map(*round),
        is_blue_scale(*fallback),
    ensures
        is_private_dict_of(*round, *fallback, *ps, r),
{
    let mut private = PrivateDictValues {
        blue_values: Vec::new(),
        other_blues: Vec::new(),
        family_blues: Vec::new(),
        family_other_blues: Vec::new(),
        blue_scale: None,
        blue_shift: None,
        blue_fuzz: None,
        force_bold: None,
        std_hw: None,
        std_vw: None,
        stem_snap_h: Vec::new(),
        stem_snap_v: Vec::new(),
        default_width_x: None,
        nominal_width_x: None,
    };
    if ps.blue_values.len() > 0 || ps.other_blues.len() > 0 || ps.family_blues.len() > 0
        || ps.family_other_blues.len() > 0 {
        private.blue_fuzz = Some(round_or(ps.blue_fuzz, 0, round));
        private.blue_shift = Some(round_or(ps.blue_shift, 7, round));
        private.blue_scale = Some(
            match ps.blue_scale {
                Some(scale) => scale,
                None => {
                    let scale: Real = fallback(&ps.blue_values, &ps.other_blues);
                    assert(scales_to(*fallback, ps.blue_values@, ps.other_blues@, scale));
                    scale
                },
            },
        );
        private.force_bold = Some(ps.force_bold.unwrap_or(false));
        private.blue_values = round_all(&ps.blue_values, round);
        private.other_blues = round_all(&ps.other_blues, round);
        private.family_blues = round_all(&ps.family_blues, round);
        private.family_other_blues = round_all(&ps.family_other_blues, round);
    }
    if ps.stem_snap_h.len() > 0 && ps.stem_snap_v.len() > 0 {
        let stem_snap_h: Vec<i32> = round_all(&ps.stem_snap_h, round);
        let stem_snap_v: Vec<i32> = round_all(&ps.stem_snap_v, round);
        private.std_hw = Some(stem_snap_h[0]);
        private.std_vw = Some(stem_snap_v[0]);
        private.stem_snap_h = sort_ints(&stem_snap_h);
        private.stem_snap_v = sort_ints(&stem_snap_v);
    }
    if ps.default_width_x.is_some() || ps.nominal_width_x.is_some() {
        private.default_width_x = Some(round_or(ps.default_width_x, 200, round));
        private.nominal_width_x = Some(round_or(ps.nominal_width_x, 0, round));
    }
    private
}

/// A glyph's bounding box.
#[derive(Debug, Clone, Copy, PartialEq, Eq, Structural)]
pub struct Bbox {
    pub x_min: i16,
    pub y_min: i16,
    pub x_max: i16,
    pub y_max: i16,
}

pub open spec fn fits_i16(v: int) -> bool {
    -0x8000 <= v <= 0x7fff
}

/// The error for a side of a glyph's box that does not fit its field.
pub open spec fn side_out_of_bounds(
    glyph_name: Seq<char>,
    what: Seq<char>,
    value: int,
    r: Result<Bbox, Error>,
) -> bool {
    match r {
        Err(Error::OutOfBounds { what: w, value: v }) => w@ == glyph_name + " bbox "@ + what && v@
            == text::signed_decimal(value),
        _ => false,
    }
}

/// What comes of the bounds of a glyph: a box, or an error that names the first
/// side that does not fit.
pub open spec fn boxes_to(glyph_name: Seq<char>, bounds: Seq<i32>, r: Result<Bbox, Error>) -> bool {
    if !fits_i16(bounds[0] as int) {
        side_out_of_bounds(glyph_name, "x_min"@, bounds[0] as int, r)
    } else if !fits_i16(bounds[1] as int) {
        side_out_of_bounds(glyph_name, "y_min"@, bounds[1] as int, r)
    } else if !fits_i16(bounds[2] as int) {
        side_out_of_bounds(glyph_name, "x_max"@, bounds[2] as int, r)
    } else if !fits_i16(bounds[3] as int) {
        side_out_of_bounds(glyph_name, "y_max"@, bounds[3] as int, r)
    } else {
        r == Ok::<Bbox, Error>(
            Bbox {
                x_min: bounds[0] as i16,
                y_min: bounds[1] as i16,
                x_max: bounds[2] as i16,
                y_max: bounds[3] as i16,
            },
        )
    }
}

fn side(glyph_name: &String, value: i32, what: &str) -> (r: Result<i16, Error>)
    ensures
        match r {
            Ok(v) => v == value,
            Err(Error::OutOfBounds { what: w, value: v }) => !fits_i16(value as int) && w@
                == glyph_name@ + " bbox "@ + what@ && v@ == text::signed_decimal(value as int),
            Err(_) => false,
        },
        r is Ok <==> fits_i16(value as int),
{
    if -0x8000 <= value && value <= 0x7fff {
        Ok(value as i16)
    } else {
        let mut w: String = glyph_name.clone();
        w.append(" bbox ");
        w.append(what);
        Err(Error::OutOfBounds { what: w, value: text::signed_decimal_of(value as i64) })
    }
}

/// The bounds recorded for a glyph, as a box.
///
/// An outline too far from the origin for the metrics tables is an error, which
/// names the first side that does not fit.
pub fn bbox_from_cff(glyph_name: &String, bounds: [i32; 4]) -> (r: Result<Bbox, Error>)
    ensures
        boxes_to(glyph_name@, bounds@, r),
{
    let x_min: i16 = match side(glyph_name, bounds[0], "x_min") {
        Ok(v) => v,
        Err(e) => return Err(e),
    };
    let y_min: i16 = match side(glyph_name, bounds[1], "y_min") {
        Ok(v) => v,
        Err(e) => return Err(e),
    };
    let x_max: i16 = match side(glyph_name, bounds[2], "x_max") {
        Ok(v) => v,
        Err(e) => return Err(e),
    };
    let y_max: i16 = match side(glyph_name, bounds[3], "y_max") {
        Ok(v) => v,
        Err(e) => return Err(e),
    };
    Ok(Bbox { x_min, y_min, x_max, y_max })
}

/// The rounded bounds to record for a glyph: an all-zero box is no box at all.
pub open spec fn recorded(bounds: Option<[i32; 4]>) -> Option<[i32; 4]> {
    match bounds {
        Some(b) => if b@[0] == 0 && b@[1] == 0 && b@[2] == 0 && b@[3] == 0 {
            None
        } else {
            Some(b)
        },
        None => None,
    }
}

/// The rounded bounds to record for a glyph: an all-zero box is no box at all.
pub fn recorded_bounds(bounds: Option<[i32; 4]>) -> (r: Option<[i32; 4]>)
    ensures
        r == recorded(bounds),
{
    match bounds {
        Some(b) => if b[0] == 0 && b[1] == 0 && b[2] == 0 && b[3] == 0 {
            None
        } else {
            Some(b)
        },
        None => None,
    }
}

/// A point of a contour, and where it lands when it is rounded.
#[derive(Debug, Clone, Copy, PartialEq, Eq, Structural)]
pub struct PathPoint {
    pub x: Real,
    pub y: Real,
    pub rounded_x: i32,
    pub rounded_y: i32,
}

/// An element of a contour.
#[derive(Debug, Clone, Copy, PartialEq, Eq, Structural)]
pub enum PathEl {
    MoveTo(PathPoint),
    LineTo(PathPoint),
    QuadTo(PathPoint, PathPoint),
    CurveTo(PathPoint, PathPoint, PathPoint),
    ClosePath,
}

/// Where the contour that element `n` belongs to starts, rounded.
pub open spec fn contour_start(path: Seq<PathEl>, n: int) -> (i32, i32)
    decreases n,
{
    if n <= 0 {
        (0, 0)
    } else {
        match path[n - 1] {
            PathEl::MoveTo(p) => (p.rounded_x, p.rounded_y),
            _ => contour_start(path, n - 1),
        }
    }
}

/// Whether element `n` is the explicit closing line of a closed contour: a line
/// right before the contour closes, onto where it starts.
pub open spec fn is_closing_line(path: Seq<PathEl>, n: int) -> bool {
    &&& 0 <= n
    &&& n + 1 < path.len()
    &&& path[n + 1] == PathEl::ClosePath
    &&& path[n] matches PathEl::LineTo(p) && (p.rounded_x, p.rounded_y) == contour_start(path, n)
}

/// The first `n` elements of `path` without explicit closing lines.
pub open spec fn without_closing_lines(path: Seq<PathEl>, n: int) -> Seq<PathEl>
    decreases n,
{
    if n <= 0 {
        seq![]
    } else if is_closing_line(path, n - 1) {
        without_closing_lines(path, n - 1)
    } else {
        without_closing_lines(path, n - 1).push(path[n - 1])
    }
}

/// Drop the explicit closing line of each closed contour.
///
/// Whether the last segment lands on the contour start is decided on rounded
/// coordinates; the points themselves are passed through unrounded.
pub fn drop_explicit_closing_lines(path: &Vec<PathEl>) -> (r: Vec<PathEl>)
    ensures
        r@ == without_closing_lines(path@, path@.len() as int),
{
    let mut out: Vec<PathEl> = Vec::new();
    let mut start: (i32, i32) = (0, 0);
    let mut i: usize = 0;
    while i < path.len()
        invariant
            i <= path@.len(),
            start == contour_start(path@, i as int),
            i == 0 ==> out@.len() == 0,
            i > 0 ==> out@ == without_closing_lines(path@, i - 1).push(path@[i - 1]),
        decreases path.len() - i,
    {
        let el: PathEl = path[i];
        let mut drop_last: bool = false;
        match el {
            PathEl::MoveTo(p) => {
                start = (p.rounded_x, p.rounded_y);
            },
            PathEl::ClosePath => {
                if i > 0 {
                    if let PathEl::LineTo(p) = path[i - 1] {
                        drop_last = p.rounded_x == start.0 && p.rounded_y == start.1;
                    }
                }
            },
            _ => {},
        }
        proof {
            if i > 0 {
                assert(drop_last == is_closing_line(path@, i - 1));
            }
        }
        if drop_last {
            out.pop();
            assert(out@ =~= without_closing_lines(path@, i - 1));
        }
        assert(out@ =~= without_closing_lines(path@, i as int));
        out.push(el);
        i = i + 1;
    }
    proof {
        if i > 0 {
            assert(!is_closing_line(path@, i - 1));
        }
    }
    out
}

/// A path that never closes keeps all its elements.
pub proof fn law_open_paths_keep_their_lines(path: Seq<PathEl>, n: int)
    requires
        0 <= n <= path.len(),
        forall|i: int| 0 <= i < path.len() ==> #[trigger] path[i] != PathEl::ClosePath,
    ensures
        without_closing_lines(path, n) == path.take(n),
    decreases n,
{
    if n > 0 {
        law_open_paths_keep_their_lines(path, n - 1);
        if n < path.len() {
            assert(path[n] != PathEl::ClosePath);
        }
        assert(path.take(n) =~= path.take(n - 1).push(path[n - 1]));
    } else {
        assert(path.take(0) =~= seq![]);
    }
}

/// Every element that is not a closing line is kept, after all that come before
/// it: nothing else is dropped and nothing changes places.
pub proof fn law_only_closing_lines_go(path: Seq<PathEl>, n: int)
    requires
        0 <= n < path.len(),
        !is_closing_line(path, n),
    ensures
        without_closing_lines(path, n + 1) == without_closing_lines(path, n).push(path[n]),
        without_closing_lines(path, path.len() as int).len() > without_closing_lines(path, n).len(),
        without_closing_lines(path, path.len() as int)[without_closing_lines(path, n).len() as int]
            == path[n],
{
    lemma_without_closing_lines_extends(path, n + 1, path.len() as int);
    let all = without_closing_lines(path, path.len() as int);
    let upto = without_closing_lines(path, n + 1);
    let k = without_closing_lines(path, n).len() as int;
    assert(all.take(upto.len() as int)[k] == upto[k]);
}

proof fn lemma_without_closing_lines_extends(path: Seq<PathEl>, a: int, b: int)
    requires
        0 <= a <= b <= path.len(),
    ensures
        without_closing_lines(path, a).len() <= without_closing_lines(path, b).len(),
        without_closing_lines(path, b).take(without_closing_lines(path, a).len() as int)
            == without_closing_lines(path, a),
    decreases b - a,
{
    let x = without_closing_lines(path, a);
    if a == b {
        assert(x.take(x.len() as int) =~= x);
    } else {
        lemma_without_closing_lines_extends(path, a, b - 1);
        assert(without_closing_lines(path, b).take(x.len() as int) =~= without_closing_lines(
            path,
            b - 1,
        ).take(x.len() as int));
    }
}

/// What `UnicodeNormalization::nfkd` gives for a character beyond ASCII.
pub uninterp spec fn unicode_nfkd(c: char) -> Seq<char>;

/// The compatibility decomposition of a character. ASCII does not decompose.
pub open spec fn nfkd(c: char) -> Seq<char> {
    if text::is_ascii_char(c) {
        seq![c]
    } else {
        unicode_nfkd(c)
    }
}

/// `unicode_normalization::UnicodeNormalization::nfkd` of one character, as a
/// list. An ASCII character is its own decomposition; beyond ASCII the result
/// only has a name.
#[verifier::external_body]
fn nfkd_of(c: char) -> (r: Vec<char>)
    ensures
        text::is_ascii_char(c) ==> r@ == nfkd(c),
        !text::is_ascii_char(c) ==> r@ == unicode_nfkd(c),
{
    unicode_normalization::UnicodeNormalization::nfkd(c).collect()
}

/// The characters that are deleted outright from a PostScript string.
pub open spec fn is_exception(c: char) -> bool {
    c == '[' || c == ']' || c == '(' || c == ')' || c == '{' || c == '}' || c == '<' || c == '>' || c
        == '/' || c == '%'
}

/// The characters that may stand in a PostScript string as they are: printable
/// ASCII without the space.
pub open spec fn postscript_char(c: char) -> bool {
    0x21 <= (c as u32) && (c as u32) <= 0x7e
}

pub open spec fn all_postscript(s: Seq<char>) -> bool {
    forall|i: int| 0 <= i < s.len() ==> postscript_char(#[trigger] s[i])
}

/// A decomposition as it goes into a PostScript string: as it is if all of it
/// may, and otherwise with a `?` for each character beyond ASCII.
pub open spec fn decomposed_form(decomposed: Seq<char>) -> Seq<char> {
    if all_postscript(decomposed) {
        decomposed
    } else {
        decomposed.map_values(
            |c: char|
                if text::is_ascii_char(c) {
                    c
                } else {
                    '?'
                },
        )
    }
}

/// What one character becomes in a PostScript string.
pub open spec fn postscript_form(c: char) -> Seq<char> {
    if is_exception(c) {
        seq![]
    } else if postscript_char(c) {
        seq![c]
    } else {
        decomposed_form(nfkd(c))
    }
}

/// What a string becomes in a PostScript string.
pub open spec fn normalized(s: Seq<char>) -> Seq<char>
    decreases s.len(),
{
    if s.len() == 0 {
        seq![]
    } else {
        normalized(s.drop_last()) + postscript_form(s.last())
    }
}

/// A string with the copyright sign spelled out.
pub open spec fn copyright_spelled_out(s: Seq<char>) -> Seq<char>
    decreases s.len(),
{
    if s.len() == 0 {
        seq![]
    } else if s.last() == '\u{a9}' {
        copyright_spelled_out(s.drop_last()) + "Copyright"@
    } else {
        copyright_spelled_out(s.drop_last()).push(s.last())
    }
}

fn is_postscript_char(c: char) -> (r: bool)
    ensures
        r == postscript_char(c),
{
    let code: u32 = c as u32;
    0x21 <= code && code <= 0x7e
}

/// A decomposition as it goes into a PostScript string.
pub fn encode_decomposed(decomposed: &Vec<char>) -> (r: Vec<char>)
    ensures
        r@ == decomposed_form(decomposed@),
{
    let mut fits: bool = true;
    let mut asciified: Vec<char> = Vec::new();
    let mut verbatim: Vec<char> = Vec::new();
    let mut i: usize = 0;
    while i < decomposed.len()
        invariant
            i <= decomposed@.len(),
            fits == all_postscript(decomposed@.take(i as int)),
            verbatim@ =~= decomposed@.take(i as int),
            asciified@ =~= decomposed@.take(i as int).map_values(
                |c: char|
                    if text::is_ascii_char(c) {
                        c
                    } else {
                        '?'
                    },
            ),
        decreases decomposed.len() - i,
    {
        let c: char = decomposed[i];
        proof {
            let a = decomposed@.take(i as int);
            let b = decomposed@.take(i + 1);
            assert(b[i as int] == c);
            assert(forall|j: int| 0 <= j < i ==> #[trigger] b[j] == a[j]);
            if all_postscript(b) {
                assert forall|j: int| 0 <= j < a.len() implies postscript_char(#[trigger] a[j]) by {
                    assert(b[j] == a[j]);
                }
            }
        }
        if !is_postscript_char(c) {
            fits = false;
        }
        verbatim.push(c);
        if (c as u32) < 0x80 {
            asciified.push(c);
        } else {
            asciified.push('?');
        }
        i = i + 1;
    }
    assert(decomposed@.take(i as int) =~= decomposed@);
    if fits {
        verbatim
    } else {
        asciified
    }
}

/// A string as it goes into a CFF table.
///
/// Deletes `[](){}<>/%`, keeps printable ASCII, and decomposes everything else:
/// if the decomposition is entirely printable ASCII it is substituted, and
/// otherwise it is written with one `?` per character beyond ASCII.
pub fn normalize_string_for_postscript(s: &str) -> (r: String)
    ensures
        r@ == normalized(s@),
{
    let chars: Vec<char> = text::chars_of(s);
    let mut out: Vec<char> = Vec::new();
    let mut i: usize = 0;
    while i < chars.len()
        invariant
            i <= chars@.len(),
            chars@ == s@,
            out@ == normalized(chars@.take(i as int)),
        decreases chars.len() - i,
    {
        let c: char = chars[i];
        proof {
            assert(chars@.take(i + 1).drop_last() =~= chars@.take(i as int));
            assert(chars@.take(i + 1).last() == c);
        }
        let ghost before = out@;
        let exception: bool = c == '[' || c == ']' || c == '(' || c == ')' || c == '{' || c == '}'
            || c == '<' || c == '>' || c == '/' || c == '%';
        if !exception {
            if is_postscript_char(c) {
                out.push(c);
                assert(out@ =~= before + seq![c]);
            } else {
                let decomposed: Vec<char> = nfkd_of(c);
                let mut form: Vec<char> = encode_decomposed(&decomposed);
                out.append(&mut form);
            }
        }
        assert(out@ =~= before + postscript_form(c));
        i = i + 1;
    }
    assert(chars@.take(i as int) =~= chars@);
    text::string_of(&out)
}

fn spell_out_copyright(s: &str) -> (r: String)
    ensures
        r@ == copyright_spelled_out(s@),
{
    let chars: Vec<char> = text::chars_of(s);
    let mut out: String = String::new();
    let mut i: usize = 0;
    while i < chars.len()
        invariant
            i <= chars@.len(),
            chars@ == s@,
            out@ == copyright_spelled_out(chars@.take(i as int)),
        decreases chars.len() - i,
    {
        assert(chars@.take(i + 1).drop_last() =~= chars@.take(i as int));
        if chars[i] == '\u{a9}' {
            out.append("Copyright");
        } else {
            out.push(chars[i]);
        }
        i = i + 1;
    }
    assert(chars@.take(i as int) =~= chars@);
    out
}

/// The Notice or Copyright string for a name table value. A missing value is
/// an empty one, and the copyright sign is spelled out before anything else.
pub fn postscript_string(value: Option<String>) -> (r: Option<String>)
    ensures
        match r {
            Some(s) => s@ == normalized(
                copyright_spelled_out(
                    match value {
                        Some(v) => v@,
                        None => Seq::empty(),
                    },
                ),
            ),
            None => false,
        },
{
    let raw: String = match value {
        Some(v) => v,
        None => String::new(),
    };
    Some(normalize_string_for_postscript(spell_out_copyright(raw.as_str()).as_str()))
}

/// Whatever goes in, what comes out is ASCII.
pub proof fn law_postscript_strings_are_ascii(s: Seq<char>)
    ensures
        text::all_ascii(normalized(s)),
    decreases s.len(),
{
    if s.len() > 0 {
        law_postscript_strings_are_ascii(s.drop_last());
        let head = normalized(s.drop_last());
        let form = postscript_form(s.last());
        assert(text::all_ascii(form)) by {
            let d = nfkd(s.last());
            if all_postscript(d) {
                assert forall|i: int| 0 <= i < d.len() implies text::is_ascii_char(#[trigger] d[i]) by {
                    assert(postscript_char(d[i]));
                }
            }
        }
        assert forall|i: int| 0 <= i < normalized(s).len() implies text::is_ascii_char(
            #[trigger] normalized(s)[i],
        ) by {
            if i < head.len() {
                assert(normalized(s)[i] == head[i]);
            } else {
                assert(normalized(s)[i] == form[i - head.len()]);
            }
        }
    }
}

/// Text of printable ASCII and spaces without any of the deleted characters
/// goes through unchanged.
pub proof fn law_plain_text_is_kept(s: Seq<char>)
    requires
        forall|i: int|
            0 <= i < s.len() ==> (postscript_char(#[trigger] s[i]) || s[i] == ' ') && !is_exception(
                s[i],
            ),
    ensures
        normalized(s) == s,
    decreases s.len(),
{
    if s.len() > 0 {
        law_plain_text_is_kept(s.drop_last());
        let c = s.last();
        assert(s[s.len() - 1] == c);
        if !postscript_char(c) {
            assert(nfkd(c) =~= seq![' ']);
            assert(!postscript_char(nfkd(c)[0]));
            assert(postscript_form(c) =~= seq![c]);
        }
        assert(s =~= s.drop_last() + seq![c]);
    } else {
        assert(normalized(s) =~= s);
    }
}

/// The US-English entry of a name table with an id, if any.
pub open spec fn english_name(names: Seq<(NameKey, String)>, id: NameId) -> Option<Seq<char>>
    decreases names.len(),
{
    if names.len() == 0 {
        None
    } else if names[0].0.name_id == id && names[0].0.lang_id == ENGLISH {
        Some(names[0].1@)
    } else {
        english_name(names.skip(1), id)
    }
}

pub open spec fn text_of(s: Option<String>) -> Option<Seq<char>> {
    match s {
        Some(s) => Some(s@),
        None => None,
    }
}

/// The first of two that there is.
pub open spec fn either<T>(a: Option<T>, b: Option<T>) -> Option<T> {
    if a is Some {
        a
    } else {
        b
    }
}

/// A string without its spaces.
pub open spec fn without_spaces(s: Seq<char>) -> Seq<char>
    decreases s.len(),
{
    if s.len() == 0 {
        seq![]
    } else if s.last() == ' ' {
        without_spaces(s.drop_last())
    } else {
        without_spaces(s.drop_last()).push(s.last())
    }
}

/// The US-English entry in the name table with the given id, if any.
fn name(static_metadata: &StaticMetadata, id: NameId) -> (r: Option<String>)
    ensures
        text_of(r) == english_name(static_metadata.names@, id),
{
    let names: &Vec<(NameKey, String)> = &static_metadata.names;
    let mut i: usize = 0;
    assert(names@.skip(0) =~= names@);
    while i < names.len()
        invariant
            i <= names@.len(),
            *names == static_metadata.names,
            english_name(names@, id) == english_name(names@.skip(i as int), id),
        decreases names.len() - i,
    {
        if names[i].0.name_id == id && names[i].0.lang_id == ENGLISH {
            return Some(names[i].1.clone());
        }
        assert(names@.skip(i as int).skip(1) =~= names@.skip(i + 1));
        i = i + 1;
    }
    None
}

fn first_of(a: Option<String>, b: Option<String>) -> (r: Option<String>)
    ensures
        r == either(a, b),
{
    if a.is_some() {
        a
    } else {
        b
    }
}

fn drop_spaces(s: &str) -> (r: String)
    ensures
        r@ == without_spaces(s@),
{
    let chars: Vec<char> = text::chars_of(s);
    let mut out: String = String::new();
    let mut i: usize = 0;
    while i < chars.len()
        invariant
            i <= chars@.len(),
            chars@ == s@,
            out@ == without_spaces(chars@.take(i as int)),
        decreases chars.len() - i,
    {
        assert(chars@.take(i + 1).drop_last() =~= chars@.take(i as int));
        if chars[i] != ' ' {
            out.push(chars[i]);
        }
        i = i + 1;
    }
    assert(chars@.take(i as int) =~= chars@);
    out
}

/// The entries of a Top DICT. The font matrix is that of `units_per_em`.
#[derive(Debug, PartialEq, Eq)]
pub struct TopDictValues {
    pub version: Option<String>,
    pub notice: Option<String>,
    pub copyright: Option<String>,
    pub full_name: Option<String>,
    pub family_name: Option<String>,
    pub weight: Option<String>,
    pub is_fixed_pitch: bool,
    pub italic_angle: Real,
    pub underline_position: i32,
    pub underline_thickness: i32,
    pub units_per_em: u16,
}

/// The family name of a font.
pub open spec fn family_name(names: Seq<(NameKey, String)>) -> Option<Seq<char>> {
    either(english_name(names, TYPOGRAPHIC_FAMILY_NAME), english_name(names, FAMILY_NAME))
}

/// The full name of a font that states none: family and subfamily, if both are
/// known.
pub open spec fn full_name_fallback(names: Seq<(NameKey, String)>) -> Option<Seq<char>> {
    match (
        family_name(names),
        either(english_name(names, TYPOGRAPHIC_SUBFAMILY_NAME), english_name(names, SUBFAMILY_NAME)),
    ) {
        (Some(family), Some(subfamily)) => Some(family + " "@ + subfamily),
        _ => None,
    }
}

/// The PostScript name of a font: what the name table says, or family and style
/// joined by a hyphen, without spaces.
pub open spec fn postscript_font_name(names: Seq<(NameKey, String)>) -> Seq<char> {
    match english_name(names, POSTSCRIPT_NAME) {
        Some(name) => name,
        None => without_spaces(
            or_else(family_name(names), Seq::empty()) + "-"@ + or_else(
                english_name(names, SUBFAMILY_NAME),
                "Regular"@,
            ),
        ),
    }
}

/// The PostScript settings of the default master say `full_name` and `weight_name`.
pub open spec fn default_master_says(
    static_metadata: StaticMetadata,
    full_name: Option<String>,
    weight_name: Option<String>,
) -> bool {
    match coords::placed(static_metadata.postscript@, static_metadata.home()) {
        Some(i) => full_name == static_metadata.postscript@[i].1.full_name && weight_name
            == static_metadata.postscript@[i].1.weight_name,
        None => full_name is None && weight_name is None,
    }
}

/// `top` is the Top DICT of a static font, and `postscript_name` the font's
/// PostScript name.
pub open spec fn is_top_dict_of(
    static_metadata: StaticMetadata,
    underline_position: i32,
    underline_thickness: i32,
    postscript_name: Seq<char>,
    top: TopDictValues,
) -> bool {
    let names = static_metadata.names@;
    &&& postscript_name == postscript_font_name(names)
    &&& text_of(top.version) == Some(
        text::signed_decimal(static_metadata.misc.version_major as int) + "."@ + text::decimal(
            static_metadata.misc.version_minor as nat,
        ),
    )
    &&& text_of(top.notice) == Some(
        normalized(copyright_spelled_out(or_else(english_name(names, TRADEMARK), Seq::empty()))),
    )
    &&& text_of(top.copyright) == Some(
        normalized(
            copyright_spelled_out(or_else(english_name(names, COPYRIGHT_NOTICE), Seq::empty())),
        ),
    )
    &&& text_of(top.family_name) == family_name(names)
    &&& exists|stated: Option<String>| #[trigger]
        default_master_says(static_metadata, stated, top.weight) && text_of(top.full_name)
            == either(text_of(stated), full_name_fallback(names))
    &&& top.is_fixed_pitch == or_else(static_metadata.misc.is_fixed_pitch, false)
    &&& top.italic_angle == static_metadata.italic_angle
    &&& top.underline_position == underline_position
    &&& top.underline_thickness == underline_thickness
    &&& top.units_per_em == static_metadata.units_per_em
}

/// The Top DICT of a static font, and the font's PostScript name. The underline
/// is the default location's, rounded.
pub fn top_dict_values(
    static_metadata: &StaticMetadata,
    underline_position: i32,
    underline_thickness: i32,
) -> (r: Result<(String, TopDictValues), Error>)
    ensures
        r is Err <==> static_metadata.axes@.len() > 0,
        match r {
            Err(e) => e == Error::CffNotStatic,
            Ok((postscript_name, top)) => is_top_dict_of(
                *static_metadata,
                underline_position,
                underline_thickness,
                postscript_name@,
                top,
            ),
        },
{
    if static_metadata.axes.len() > 0 {
        return Err(Error::CffNotStatic);
    }
    let postscript: PostscriptSettings = static_metadata.postscript_default();
    let ghost stated = postscript.full_name;
    let family: Option<String> = first_of(
        name(static_metadata, TYPOGRAPHIC_FAMILY_NAME),
        name(static_metadata, FAMILY_NAME),
    );
    let mut version: String = text::signed_decimal_of(static_metadata.misc.version_major as i64);
    version.append(".");
    version.append(text::decimal_of(static_metadata.misc.version_minor as u64).as_str());
    let full_name: Option<String> = match postscript.full_name {
        Some(full_name) => Some(full_name),
        None => {
            let subfamily: Option<String> = first_of(
                name(static_metadata, TYPOGRAPHIC_SUBFAMILY_NAME),
                name(static_metadata, SUBFAMILY_NAME),
            );
            match (&family, subfamily) {
                (Some(family), Some(subfamily)) => {
                    let mut full: String = family.clone();
                    full.append(" ");
                    full.append(subfamily.as_str());
                    Some(full)
                },
                _ => None,
            }
        },
    };
    let postscript_name: String = match name(static_metadata, POSTSCRIPT_NAME) {
        Some(postscript_name) => postscript_name,
        None => {
            let mut fallback: String = match &family {
                Some(family) => family.clone(),
                None => String::new(),
            };
            fallback.append("-");
            match name(static_metadata, SUBFAMILY_NAME) {
                Some(style) => {
                    fallback.append(style.as_str());
                },
                None => {
                    fallback.append("Regular");
                },
            }
            assert(fallback@ =~= or_else(family_name(static_metadata.names@), Seq::empty()) + "-"@
                + or_else(english_name(static_metadata.names@, SUBFAMILY_NAME), "Regular"@));
            drop_spaces(fallback.as_str())
        },
    };
    assert(default_master_says(*static_metadata, stated, postscript.weight_name));
    Ok(
        (
            postscript_name,
            TopDictValues {
                version: Some(version),
                notice: postscript_string(name(static_metadata, TRADEMARK)),
                copyright: postscript_string(name(static_metadata, COPYRIGHT_NOTICE)),
                full_name,
                family_name: family,
                weight: postscript.weight_name,
                is_fixed_pitch: static_metadata.misc.is_fixed_pitch.unwrap_or(false),
                italic_angle: static_metadata.italic_angle,
                underline_position,
                underline_thickness,
                units_per_em: static_metadata.units_per_em,
            },
        ),
    )
}

/// What each contour of a list holds.
pub open spec fn elements(contours: Seq<Vec<PathEl>>) -> Seq<Seq<PathEl>> {
    contours.map_values(|c: Vec<PathEl>| c@)
}

/// The contours of a glyph as a charstring draws them.
pub open spec fn drawn_contours(
    glyph_name: Seq<char>,
    contours: Seq<Seq<PathEl>>,
    synthesized_notdef: bool,
) -> Seq<Seq<PathEl>> {
    if synthesized_notdef && glyph_name == ".notdef"@ {
        contours
    } else {
        contours.map_values(|c: Seq<PathEl>| without_closing_lines(c, c.len() as int))
    }
}

/// The contours of a glyph as a charstring draws them.
///
/// A glyph with components cannot be drawn. Explicit closing lines go, except
/// in a `.notdef` that the source does not have and that was made up for it.
pub fn contours_to_draw(
    glyph_name: &String,
    components: usize,
    contours: &Vec<Vec<PathEl>>,
    synthesized_notdef: bool,
) -> (r: Result<Vec<Vec<PathEl>>, Error>)
    ensures
        r is Err <==> components > 0,
        match r {
            Err(e) => e == Error::CffGlyphHasComponents(*glyph_name),
            Ok(drawn) => elements(drawn@) == drawn_contours(
                glyph_name@,
                elements(contours@),
                synthesized_notdef,
            ),
        },
{
    if components > 0 {
        return Err(Error::CffGlyphHasComponents(glyph_name.clone()));
    }
    let keep: bool = synthesized_notdef && text::same(glyph_name.as_str(), ".notdef");
    let mut drawn: Vec<Vec<PathEl>> = Vec::new();
    let mut i: usize = 0;
    while i < contours.len()
        invariant
            i <= contours@.len(),
            drawn@.len() == i,
            forall|j: int|
                0 <= j < i ==> (#[trigger] drawn@[j])@ == (if keep {
                    contours@[j]@
                } else {
                    without_closing_lines(contours@[j]@, contours@[j]@.len() as int)
                }),
        decreases contours.len() - i,
    {
        if keep {
            drawn.push(lookup::copied(&contours[i]));
        } else {
            drawn.push(drop_explicit_closing_lines(&contours[i]));
        }
        i = i + 1;
    }
    proof {
        if keep {
            assert(elements(drawn@) =~= elements(contours@));
        } else {
            assert(elements(drawn@) =~= elements(contours@).map_values(
                |c: Seq<PathEl>| without_closing_lines(c, c.len() as int),
            ));
        }
    }
    Ok(drawn)
}

/// Whether the `.notdef` of a font is one that was made up for it.
pub open spec fn is_notdef_made_up(preliminary_order: Seq<String>) -> bool {
    forall|i: int| 0 <= i < preliminary_order.len() ==> (#[trigger] preliminary_order[i])@
        != ".notdef"@
}

pub(crate) fn notdef_is_made_up(preliminary_order: &Vec<String>) -> (r: bool)
    ensures
        r == is_notdef_made_up(preliminary_order@),
{
    let mut i: usize = 0;
    while i < preliminary_order.len()
        invariant
            i <= preliminary_order@.len(),
            forall|k: int| 0 <= k < i ==> (#[trigger] preliminary_order@[k])@ != ".notdef"@,
        decreases preliminary_order.len() - i,
    {
        if text::same(preliminary_order[i].as_str(), ".notdef") {
            return false;
        }
        i = i + 1;
    }
    true
}

proof fn lemma_kept_depends_on_what_is_read(a: Seq<PathEl>, b: Seq<PathEl>, n: int)
    requires
        0 <= n < a.len(),
        n < b.len(),
        forall|i: int| 0 <= i <= n ==> a[i] == b[i],
    ensures
        without_closing_lines(a, n) == without_closing_lines(b, n),
    decreases n,
{
    if n > 0 {
        lemma_kept_depends_on_what_is_read(a, b, n - 1);
        lemma_start_depends_on_what_is_read(a, b, n - 1);
        assert(a[n] == b[n] && a[n - 1] == b[n - 1]);
    }
}

proof fn lemma_start_depends_on_what_is_read(a: Seq<PathEl>, b: Seq<PathEl>, n: int)
    requires
        n <= a.len(),
        n <= b.len(),
        forall|i: int| 0 <= i < n ==> a[i] == b[i],
    ensures
        contour_start(a, n) == contour_start(b, n),
    decreases n,
{
    if n > 0 {
        lemma_start_depends_on_what_is_read(a, b, n - 1);
        assert(a[n - 1] == b[n - 1]);
    }
}

proof fn lemma_contour_starts_at_its_move(path: Seq<PathEl>, m: int, n: int, start: PathPoint)
    requires
        0 <= m < n <= path.len(),
        path[m] == PathEl::MoveTo(start),
        forall|i: int| m < i < n ==> !(path[i] is MoveTo),
    ensures
        contour_start(path, n) == (start.rounded_x, start.rounded_y),
    decreases n,
{
    if n > m + 1 {
        assert(!(path[n - 1] is MoveTo));
        lemma_contour_starts_at_its_move(path, m, n - 1, start);
    }
}

/// An element that does not close a contour right behind a line is added to
/// what is drawn, and changes nothing before it.
pub proof fn law_other_elements_are_only_added(path: Seq<PathEl>, el: PathEl)
    requires
        el != PathEl::ClosePath || path.len() == 0 || !(path.last() is LineTo),
    ensures
        without_closing_lines(path.push(el), path.len() as int + 1) == without_closing_lines(
            path,
            path.len() as int,
        ).push(el),
{
    let n = path.len() as int;
    let longer = path.push(el);
    assert(longer[n] == el);
    if n > 0 {
        assert(forall|i: int| 0 <= i <= n - 1 ==> path[i] == longer[i]);
        lemma_kept_depends_on_what_is_read(path, longer, n - 1);
        assert(longer[n - 1] == path.last());
        assert(!is_closing_line(path, n - 1));
        assert(!is_closing_line(longer, n - 1));
        assert(without_closing_lines(longer, n) == without_closing_lines(longer, n - 1).push(
            path.last(),
        ));
    } else {
        assert(without_closing_lines(longer, n) =~= without_closing_lines(path, n));
    }
    assert(!is_closing_line(longer, n));
}

/// The line right before a contour closes goes if it ends, rounded in both
/// directions, where the contour starts, and stays if it is off in either.
pub proof fn law_a_closing_line_ends_where_the_contour_starts(
    before: Seq<PathEl>,
    start: PathPoint,
    middle: Seq<PathEl>,
    end: PathPoint,
)
    requires
        forall|i: int| 0 <= i < middle.len() ==> !(#[trigger] middle[i] is MoveTo),
    ensures
        ({
            let drawn = before.push(PathEl::MoveTo(start)) + middle;
            let kept = without_closing_lines(drawn, drawn.len() as int);
            let closed = drawn.push(PathEl::LineTo(end)).push(PathEl::ClosePath);
            without_closing_lines(closed, closed.len() as int) == if end.rounded_x
                == start.rounded_x && end.rounded_y == start.rounded_y {
                kept.push(PathEl::ClosePath)
            } else {
                kept.push(PathEl::LineTo(end)).push(PathEl::ClosePath)
            }
        }),
{
    let drawn = before.push(PathEl::MoveTo(start)) + middle;
    let lined = drawn.push(PathEl::LineTo(end));
    let closed = lined.push(PathEl::ClosePath);
    let n = drawn.len() as int;
    let m = before.len() as int;
    law_other_elements_are_only_added(drawn, PathEl::LineTo(end));
    assert(closed[m] == PathEl::MoveTo(start));
    assert forall|i: int| m < i < n implies !(closed[i] is MoveTo) by {
        assert(closed[i] == middle[i - m - 1]);
    }
    lemma_contour_starts_at_its_move(closed, m, n, start);
    assert(closed[n] == PathEl::LineTo(end));
    assert(closed[n + 1] == PathEl::ClosePath);
    assert(forall|i: int| 0 <= i <= n ==> closed[i] == lined[i]);
    lemma_kept_depends_on_what_is_read(closed, lined, n);
    assert(!is_closing_line(lined, n));
    assert(without_closing_lines(lined, n + 1) == without_closing_lines(lined, n).push(
        PathEl::LineTo(end),
    ));
    let kept = without_closing_lines(drawn, n);
    assert(without_closing_lines(lined, n).push(PathEl::LineTo(end)).drop_last() == kept.push(
        PathEl::LineTo(end),
    ).drop_last());
    assert(without_closing_lines(lined, n).push(PathEl::LineTo(end)).drop_last()
        =~= without_closing_lines(lined, n));
    assert(kept.push(PathEl::LineTo(end)).drop_last() =~= kept);
    assert(!is_closing_line(closed, n + 1));
    assert(without_closing_lines(closed, n + 2) == without_closing_lines(closed, n + 1).push(
        PathEl::ClosePath,
    ));
}

/// A line that ends at another height than its contour starts is drawn,
/// whatever comes behind it, and so is one that ends further left or right.
pub proof fn law_a_line_away_from_the_start_is_drawn(
    path: Seq<PathEl>,
    m: int,
    n: int,
    start: PathPoint,
    end: PathPoint,
)
    requires
        0 <= m < n < path.len(),
        path[m] == PathEl::MoveTo(start),
        forall|i: int| m < i < n ==> !(path[i] is MoveTo),
        path[n] == PathEl::LineTo(end),
        end.rounded_x != start.rounded_x || end.rounded_y != start.rounded_y,
    ensures
        without_closing_lines(path, path.len() as int).contains(path[n]),
{
    lemma_contour_starts_at_its_move(path, m, n, start);
    law_only_closing_lines_go(path, n);
}

/// Nothing but lines is ever left out.
pub proof fn law_moves_curves_and_closes_are_drawn(path: Seq<PathEl>, n: int)
    requires
        0 <= n < path.len(),
        !(path[n] is LineTo),
    ensures
        without_closing_lines(path, path.len() as int).contains(path[n]),
{
    law_only_closing_lines_go(path, n);
}

/// Each list of blues in a Private DICT is the rounded list of the same name of
/// the settings, and the scalars that the settings state are the rounded ones
/// of the same name, if there are any blues.
pub proof fn law_blues_go_by_their_own_names<
    R: Fn(Real) -> i32,
    F: Fn(&Vec<Real>, &Vec<Real>) -> Real,
>(round: R, fallback: F, ps: PostscriptSettings, r: PrivateDictValues)
    requires
        is_private_dict_of(round, fallback, ps, r),
        ps.blue_values@.len() > 0 || ps.other_blues@.len() > 0 || ps.family_blues@.len() > 0
            || ps.family_other_blues@.len() > 0,
    ensures
        r.blue_values@.len() == ps.blue_values@.len(),
        r.other_blues@.len() == ps.other_blues@.len(),
        r.family_blues@.len() == ps.family_blues@.len(),
        r.family_other_blues@.len() == ps.family_other_blues@.len(),
        forall|i: int|
            0 <= i < ps.blue_values@.len() ==> #[trigger] r.blue_values@[i] == numeric::image(
                round,
                ps.blue_values@[i],
            ),
        forall|i: int|
            0 <= i < ps.other_blues@.len() ==> #[trigger] r.other_blues@[i] == numeric::image(
                round,
                ps.other_blues@[i],
            ),
        forall|i: int|
            0 <= i < ps.family_blues@.len() ==> #[trigger] r.family_blues@[i] == numeric::image(
                round,
                ps.family_blues@[i],
            ),
        forall|i: int|
            0 <= i < ps.family_other_blues@.len() ==> #[trigger] r.family_other_blues@[i]
                == numeric::image(round, ps.family_other_blues@[i]),
        ps.blue_fuzz matches Some(v) ==> r.blue_fuzz == Some(numeric::image(round, v)),
        ps.blue_fuzz is None ==> r.blue_fuzz == Some(0i32),
        ps.blue_shift matches Some(v) ==> r.blue_shift == Some(numeric::image(round, v)),
        ps.blue_shift is None ==> r.blue_shift == Some(7i32),
        ps.blue_scale is Some ==> r.blue_scale == ps.blue_scale,
        ps.blue_scale is None ==> (r.blue_scale matches Some(scale) && scale == blue_scale_of(
            fallback,
            ps.blue_values@,
            ps.other_blues@,
        )),
        r.force_bold == Some(ps.force_bold == Some(true)),
{
}

/// Settings without any blues give a Private DICT without blues and without
/// the scalars that belong to them, whatever else they state.
pub proof fn law_no_blues_no_blue_scalars<
    R: Fn(Real) -> i32,
    F: Fn(&Vec<Real>, &Vec<Real>) -> Real,
>(round: R, fallback: F, ps: PostscriptSettings, r: PrivateDictValues)
    requires
        is_private_dict_of(round, fallback, ps, r),
        ps.blue_values@.len() == 0,
        ps.other_blues@.len() == 0,
        ps.family_blues@.len() == 0,
        ps.family_other_blues@.len() == 0,
    ensures
        r.blue_values@.len() == 0 && r.other_blues@.len() == 0,
        r.family_blues@.len() == 0 && r.family_other_blues@.len() == 0,
        r.blue_fuzz is None && r.blue_shift is None,
        r.blue_scale is None && r.force_bold is None,
{
}

/// Horizontal stems come of horizontal stems and vertical ones of vertical
/// ones: the same widths, rounded and in ascending order, with the first that
/// the settings list as the standard one. One direction alone gives none.
pub proof fn law_stems_go_by_direction<
    R: Fn(Real) -> i32,
    F: Fn(&Vec<Real>, &Vec<Real>) -> Real,
>(round: R, fallback: F, ps: PostscriptSettings, r: PrivateDictValues)
    requires
        is_private_dict_of(round, fallback, ps, r),
    ensures
        ps.stem_snap_h@.len() > 0 && ps.stem_snap_v@.len() > 0 ==> {
            &&& r.std_hw == Some(numeric::image(round, ps.stem_snap_h@[0]))
            &&& r.std_vw == Some(numeric::image(round, ps.stem_snap_v@[0]))
            &&& r.stem_snap_h@.to_multiset() == ps.stem_snap_h@.map_values(
                |v: Real| numeric::image(round, v),
            ).to_multiset()
            &&& r.stem_snap_v@.to_multiset() == ps.stem_snap_v@.map_values(
                |v: Real| numeric::image(round, v),
            ).to_multiset()
            &&& forall|i: int, j: int|
                0 <= i < j < r.stem_snap_h@.len() ==> r.stem_snap_h@[i] <= r.stem_snap_h@[j]
            &&& forall|i: int, j: int|
                0 <= i < j < r.stem_snap_v@.len() ==> r.stem_snap_v@[i] <= r.stem_snap_v@[j]
        },
        ps.stem_snap_h@.len() == 0 || ps.stem_snap_v@.len() == 0 ==> {
            &&& r.std_hw is None && r.std_vw is None
            &&& r.stem_snap_h@.len() == 0 && r.stem_snap_v@.len() == 0
        },
{
    let h = ps.stem_snap_h@.map_values(|v: Real| numeric::image(round, v));
    let v = ps.stem_snap_v@.map_values(|v: Real| numeric::image(round, v));
    assert(rounded(round, ps.stem_snap_h@) =~= h);
    assert(rounded(round, ps.stem_snap_v@) =~= v);
}

/// The default and the nominal width are there together or not at all, and
/// each is the one of its name where the settings state it.
pub proof fn law_widths_go_together<
    R: Fn(Real) -> i32,
    F: Fn(&Vec<Real>, &Vec<Real>) -> Real,
>(round: R, fallback: F, ps: PostscriptSettings, r: PrivateDictValues)
    requires
        is_private_dict_of(round, fallback, ps, r),
    ensures
        r.default_width_x is Some <==> r.nominal_width_x is Some,
        r.default_width_x is Some <==> ps.default_width_x is Some || ps.nominal_width_x is Some,
        ps.default_width_x matches Some(w) ==> r.default_width_x == Some(numeric::image(round, w)),
        ps.nominal_width_x matches Some(w) ==> r.nominal_width_x == Some(numeric::image(round, w)),
        ps.default_width_x is None && ps.nominal_width_x is Some ==> r.default_width_x == Some(
            200i32,
        ),
        ps.nominal_width_x is None && ps.default_width_x is Some ==> r.nominal_width_x == Some(
            0i32,
        ),
{
}

/// A box has the four bounds of its glyph, side by side, and there is one
/// exactly if each of them is a 16 bit number.
pub proof fn law_a_box_has_the_bounds_of_its_glyph(
    glyph_name: Seq<char>,
    bounds: Seq<i32>,
    r: Result<Bbox, Error>,
)
    requires
        bounds.len() == 4,
        boxes_to(glyph_name, bounds, r),
    ensures
        r is Ok <==> forall|i: int| 0 <= i < 4 ==> -32768 <= #[trigger] bounds[i] <= 32767,
        r matches Ok(found) ==> found.x_min == bounds[0] && found.y_min == bounds[1] && found.x_max
            == bounds[2] && found.y_max == bounds[3],
        r matches Err(e) ==> e is OutOfBounds,
{
    assert(-32768 <= bounds[0] <= 32767 ==> fits_i16(bounds[0] as int));
    assert(-32768 <= bounds[1] <= 32767 ==> fits_i16(bounds[1] as int));
    assert(-32768 <= bounds[2] <= 32767 ==> fits_i16(bounds[2] as int));
    assert(-32768 <= bounds[3] <= 32767 ==> fits_i16(bounds[3] as int));
}

/// The error for bounds that are no box names the first side that is too far
/// out, in the order left, bottom, right, top, and says how far.
pub proof fn law_the_first_side_too_far_out_is_named(
    glyph_name: Seq<char>,
    bounds: Seq<i32>,
    r: Result<Bbox, Error>,
    k: int,
)
    requires
        bounds.len() == 4,
        boxes_to(glyph_name, bounds, r),
        0 <= k < 4,
        forall|i: int| 0 <= i < k ==> -32768 <= #[trigger] bounds[i] <= 32767,
        bounds[k] < -32768 || bounds[k] > 32767,
    ensures
        r matches Err(Error::OutOfBounds { what, value }) && value@ == text::signed_decimal(
            bounds[k] as int,
        ) && what@ == glyph_name + " bbox "@ + (if k == 0 {
            "x_min"@
        } else if k == 1 {
            "y_min"@
        } else if k == 2 {
            "x_max"@
        } else {
            "y_max"@
        }),
{
    assert(0 < k ==> -32768 <= bounds[0] <= 32767);
    assert(1 < k ==> -32768 <= bounds[1] <= 32767);
    assert(2 < k ==> -32768 <= bounds[2] <= 32767);
}

/// Bounds are recorded as they are, except that those of nothing but zeros are
/// not.
pub proof fn law_only_an_all_zero_box_is_no_box(bounds: [i32; 4])
    ensures
        recorded(None) is None,
        (exists|i: int| 0 <= i < 4 && #[trigger] bounds@[i] != 0) ==> recorded(Some(bounds)) == Some(
            bounds,
        ),
        (forall|i: int| 0 <= i < 4 ==> #[trigger] bounds@[i] == 0) ==> recorded(Some(bounds))
            is None,
{
    if exists|i: int| 0 <= i < 4 && #[trigger] bounds@[i] != 0 {
        let i = choose|i: int| 0 <= i < 4 && #[trigger] bounds@[i] != 0;
        assert(i == 0 || i == 1 || i == 2 || i == 3);
    }
}

proof fn lemma_normalized_joins(a: Seq<char>, b: Seq<char>)
    ensures
        normalized(a + b) == normalized(a) + normalized(b),
    decreases b.len(),
{
    if b.len() == 0 {
        assert(a + b =~= a);
        assert(normalized(a) + normalized(b) =~= normalized(a));
    } else {
        assert((a + b).drop_last() =~= a + b.drop_last());
        assert((a + b).last() == b.last());
        lemma_normalized_joins(a, b.drop_last());
        assert(normalized(a) + normalized(b.drop_last()) + postscript_form(b.last())
            =~= normalized(a) + (normalized(b.drop_last()) + postscript_form(b.last())));
    }
}

/// What becomes of text in a PostScript string, character by character: the
/// delimiters `[](){}<>/%` go, every other ASCII character stays, and any other
/// character is replaced by its decomposition, whose characters beyond ASCII
/// become question marks.
pub proof fn law_postscript_strings_go_by_character(before: Seq<char>, c: char, after: Seq<char>)
    ensures
        normalized(before + after) == normalized(before) + normalized(after),
        normalized(before.push(c) + after) == normalized(before) + normalized(seq![c])
            + normalized(after),
        "[](){}<>/%"@.contains(c) ==> normalized(seq![c]).len() == 0,
        (c as u32) < 0x80 && !"[](){}<>/%"@.contains(c) ==> normalized(seq![c]) == seq![c],
        (c as u32) >= 0x80 ==> normalized(seq![c]).len() == unicode_nfkd(c).len() && forall|i: int|
            0 <= i < unicode_nfkd(c).len() ==> #[trigger] normalized(seq![c])[i] == if (unicode_nfkd(
                c,
            )[i] as u32) < 0x80 {
                unicode_nfkd(c)[i]
            } else {
                '?'
            },
{
    reveal_strlit("[](){}<>/%");
    lemma_normalized_joins(before, after);
    lemma_normalized_joins(before.push(c), after);
    lemma_normalized_joins(before, seq![c]);
    assert(before + seq![c] =~= before.push(c));
    let one = seq![c];
    assert(one.drop_last() =~= seq![]);
    assert(one.last() == c);
    assert(normalized(one.drop_last()) =~= seq![]);
    assert(normalized(one) =~= postscript_form(c));
    let all = "[](){}<>/%"@;
    assert(all[0] == '[' && all[1] == ']' && all[2] == '(' && all[3] == ')' && all[4] == '{'
        && all[5] == '}' && all[6] == '<' && all[7] == '>' && all[8] == '/' && all[9] == '%');
    assert(all.len() == 10);
    assert(is_exception(c) <==> all.contains(c)) by {
        if all.contains(c) {
            let i = choose|i: int| 0 <= i < all.len() && all[i] == c;
        }
    }
    if (c as u32) >= 0x80 && all_postscript(unicode_nfkd(c)) {
        assert forall|i: int| 0 <= i < unicode_nfkd(c).len() implies (unicode_nfkd(c)[i] as u32)
            < 0x80 by {
            assert(postscript_char(unicode_nfkd(c)[i]));
        }
    }
}

/// Nothing but copyright signs is spelled out, each on its own.
pub proof fn law_each_copyright_sign_is_spelled_out(before: Seq<char>, c: char)
    ensures
        copyright_spelled_out(Seq::empty()).len() == 0,
        copyright_spelled_out(before.push(c)) == if c == '\u{a9}' {
            copyright_spelled_out(before) + "Copyright"@
        } else {
            copyright_spelled_out(before).push(c)
        },
{
    assert(before.push(c).drop_last() =~= before);
}

/// A name is read off the first record for US English with its id, whatever
/// the platform, and is not there exactly if no record is.
pub proof fn law_names_are_read_off_english_records(
    names: Seq<(NameKey, String)>,
    id: NameId,
    k: int,
)
    ensures
        0 <= k < names.len() && names[k].0.name_id == id && names[k].0.lang_id == 0x409 && (forall|
            i: int,
        |
            0 <= i < k ==> (#[trigger] names[i]).0.name_id != id || names[i].0.lang_id != 0x409)
            ==> english_name(names, id) == Some(names[k].1@),
        english_name(names, id) is None <==> forall|i: int|
            0 <= i < names.len() ==> (#[trigger] names[i]).0.name_id != id || names[i].0.lang_id
                != 0x409,
    decreases names.len(),
{
    if names.len() > 0 {
        let rest = names.skip(1);
        law_names_are_read_off_english_records(rest, id, k - 1);
        assert forall|i: int| 0 <= i < rest.len() implies rest[i] == #[trigger] names[i + 1] by {}
        if names[0].0.name_id == id && names[0].0.lang_id == 0x409 {
        } else {
            if 0 < k < names.len() {
                assert(rest[k - 1] == names[k]);
                if forall|i: int|
                    0 <= i < k ==> (#[trigger] names[i]).0.name_id != id || names[i].0.lang_id
                        != 0x409 {
                    assert forall|i: int| 0 <= i < k - 1 implies (#[trigger] rest[i]).0.name_id
                        != id || rest[i].0.lang_id != 0x409 by {
                        assert(rest[i] == names[i + 1]);
                    }
                }
            }
            if forall|i: int|
                0 <= i < rest.len() ==> (#[trigger] rest[i]).0.name_id != id || rest[i].0.lang_id
                    != 0x409 {
                assert forall|i: int| 0 <= i < names.len() implies (#[trigger] names[i]).0.name_id
                    != id || names[i].0.lang_id != 0x409 by {
                    if i > 0 {
                        assert(rest[i - 1] == names[i]);
                    }
                }
            } else {
                let i = choose|i: int|
                    0 <= i < rest.len() && !((#[trigger] rest[i]).0.name_id != id
                        || rest[i].0.lang_id != 0x409);
                assert(names[i + 1] == rest[i]);
            }
        }
    }
}

/// The strings of a Top DICT come from these records of the name table: the
/// notice from the trademark (7), the copyright from the copyright notice (0),
/// the family from the typographic family (16) or else the family (1).
pub proof fn law_top_dict_strings_come_from_their_records(
    static_metadata: StaticMetadata,
    underline_position: i32,
    underline_thickness: i32,
    postscript_name: Seq<char>,
    top: TopDictValues,
)
    requires
        is_top_dict_of(
            static_metadata,
            underline_position,
            underline_thickness,
            postscript_name,
            top,
        ),
    ensures
        top.notice matches Some(notice) && match english_name(static_metadata.names@, 7) {
            Some(said) => notice@ == normalized(copyright_spelled_out(said)),
            None => notice@.len() == 0,
        },
        top.copyright matches Some(copyright) && match english_name(static_metadata.names@, 0) {
            Some(said) => copyright@ == normalized(copyright_spelled_out(said)),
            None => copyright@.len() == 0,
        },
        match english_name(static_metadata.names@, 16) {
            Some(said) => top.family_name matches Some(family) && family@ == said,
            None => match english_name(static_metadata.names@, 1) {
                Some(said) => top.family_name matches Some(family) && family@ == said,
                None => top.family_name is None,
            },
        },
{
    assert(copyright_spelled_out(Seq::empty()) =~= Seq::empty());
    assert(normalized(Seq::empty()) =~= Seq::empty());
}

/// The PostScript name is the record for it (6). Without one it is family and
/// style, a hyphen in between and no spaces: the style is the subfamily (2) or
/// else Regular.
pub proof fn law_the_postscript_name_is_stated_or_put_together(
    static_metadata: StaticMetadata,
    underline_position: i32,
    underline_thickness: i32,
    postscript_name: Seq<char>,
    top: TopDictValues,
)
    requires
        is_top_dict_of(
            static_metadata,
            underline_position,
            underline_thickness,
            postscript_name,
            top,
        ),
    ensures
        english_name(static_metadata.names@, 6) matches Some(said) ==> postscript_name == said,
        english_name(static_metadata.names@, 6) is None ==> postscript_name == ((match top.family_name {
            Some(family) => family@,
            None => Seq::empty(),
        }) + "-"@ + (match english_name(static_metadata.names@, 2) {
            Some(style) => style,
            None => "Regular"@,
        })).filter(|c: char| c != ' '),
{
    let whole = (match top.family_name {
        Some(family) => family@,
        None => Seq::empty(),
    }) + "-"@ + (match english_name(static_metadata.names@, 2) {
        Some(style) => style,
        None => "Regular"@,
    });
    lemma_without_spaces_filters(whole);
}

proof fn lemma_without_spaces_filters(s: Seq<char>)
    ensures
        without_spaces(s) == s.filter(|c: char| c != ' '),
    decreases s.len(),
{
    reveal(Seq::filter);
    if s.len() > 0 {
        lemma_without_spaces_filters(s.drop_last());
    }
}

/// The full name of a Top DICT is what the settings of the default master
/// state. Without that it is family and style with a space in between, if both
/// are known; the style is the typographic subfamily (17) or else the
/// subfamily (2). The weight is only ever what the same settings state.
pub proof fn law_the_full_name_is_stated_or_put_together(
    static_metadata: StaticMetadata,
    underline_position: i32,
    underline_thickness: i32,
    postscript_name: Seq<char>,
    top: TopDictValues,
)
    requires
        is_top_dict_of(
            static_metadata,
            underline_position,
            underline_thickness,
            postscript_name,
            top,
        ),
    ensures
        match coords::placed(static_metadata.postscript@, static_metadata.home()) {
            Some(i) => {
                &&& top.weight == static_metadata.postscript@[i].1.weight_name
                &&& static_metadata.postscript@[i].1.full_name matches Some(said) ==> (
                top.full_name matches Some(full) && full@ == said@)
            },
            None => top.weight is None,
        },
        (match coords::placed(static_metadata.postscript@, static_metadata.home()) {
            Some(i) => static_metadata.postscript@[i].1.full_name is None,
            None => true,
        }) ==> match (
            top.family_name,
            if english_name(static_metadata.names@, 17) is Some {
                english_name(static_metadata.names@, 17)
            } else {
                english_name(static_metadata.names@, 2)
            },
        ) {
            (Some(family), Some(style)) => top.full_name matches Some(full) && full@ == family@
                + " "@ + style,
            _ => top.full_name is None,
        },
{
}

/// The numbers of a Top DICT are those of the font.
pub proof fn law_top_dict_numbers_are_those_of_the_font(
    static_metadata: StaticMetadata,
    underline_position: i32,
    underline_thickness: i32,
    postscript_name: Seq<char>,
    top: TopDictValues,
)
    requires
        is_top_dict_of(
            static_metadata,
            underline_position,
            underline_thickness,
            postscript_name,
            top,
        ),
    ensures
        top.version matches Some(version) && version@ == text::signed_decimal(
            static_metadata.misc.version_major as int,
        ) + "."@ + text::decimal(static_metadata.misc.version_minor as nat),
        top.is_fixed_pitch == (static_metadata.misc.is_fixed_pitch == Some(true)),
        top.italic_angle == static_metadata.italic_angle,
        top.underline_position == underline_position,
        top.underline_thickness == underline_thickness,
        top.units_per_em == static_metadata.units_per_em,
{
}

/// Every contour of a glyph is drawn, in order and each without its closing
/// lines. Only a `.notdef` that the source does not have is drawn in full.
pub proof fn law_contours_are_drawn_one_by_one(
    glyph_name: Seq<char>,
    contours: Seq<Seq<PathEl>>,
    synthesized_notdef: bool,
    i: int,
)
    requires
        0 <= i < contours.len(),
    ensures
        drawn_contours(glyph_name, contours, synthesized_notdef).len() == contours.len(),
        !synthesized_notdef || glyph_name != ".notdef"@ ==> drawn_contours(
            glyph_name,
            contours,
            synthesized_notdef,
        )[i] == without_closing_lines(contours[i], contours[i].len() as int),
        synthesized_notdef && glyph_name == ".notdef"@ ==> drawn_contours(
            glyph_name,
            contours,
            synthesized_notdef,
        )[i] == contours[i],
{
}

/// A `.notdef` is made up if no glyph of the source has that name.
pub proof fn law_notdef_is_made_up_if_no_glyph_is_it(order: Seq<String>, glyph: String)
    ensures
        is_notdef_made_up(Seq::empty()),
        is_notdef_made_up(order.push(glyph)) <==> is_notdef_made_up(order) && glyph@ != seq![
            '.',
            'n',
            'o',
            't',
            'd',
            'e',
            'f',
        ],
{
    reveal_strlit(".notdef");
    assert(".notdef"@ =~= seq!['.', 'n', 'o', 't', 'd', 'e', 'f']);
    let more = order.push(glyph);
    if is_notdef_made_up(more) {
        assert(more[order.len() as int] == glyph);
        assert forall|i: int| 0 <= i < order.len() implies (#[trigger] order[i])@
            != ".notdef"@ by {
            assert(more[i] == order[i]);
        }
    }
    if is_notdef_made_up(order) && glyph@ != ".notdef"@ {
        assert forall|i: int| 0 <= i < more.len() implies (#[trigger] more[i])@ != ".notdef"@ by {
            if i < order.len() {
                assert(more[i] == order[i]);
            }
        }
    }
}

/// Spaces are left out, and everything else stays in order.
pub proof fn law_only_spaces_are_left_out(s: Seq<char>, c: char)
    ensures
        without_spaces(Seq::empty()).len() == 0,
        without_spaces(s.push(c)) == if c == ' ' {
            without_spaces(s)
        } else {
            without_spaces(s).push(c)
        },
{
    assert(s.push(c).drop_last() =~= s);
}

/// What the default master says is what the first settings for the default
/// location say, or nothing if there are none.
pub proof fn law_the_default_master_speaks_for_itself(
    static_metadata: StaticMetadata,
    full_name: Option<String>,
    weight_name: Option<String>,
    i: int,
)
    requires
        default_master_says(static_metadata, full_name, weight_name),
    ensures
        0 <= i < static_metadata.postscript@.len() && static_metadata.postscript@[i].0@
            == static_metadata.home() && (forall|k: int|
            0 <= k < i ==> (#[trigger] static_metadata.postscript@[k]).0@
                != static_metadata.home()) ==> full_name
            == static_metadata.postscript@[i].1.full_name && weight_name
            == static_metadata.postscript@[i].1.weight_name,
        (forall|k: int| 0 <= k < static_metadata.postscript@.len() ==> (
        #[trigger] static_metadata.postscript@[k]).0@ != static_metadata.home()) ==> full_name
            is None && weight_name is None,
{
    coords::lemma_placed(static_metadata.postscript@, static_metadata.home());
}

} // verus!
