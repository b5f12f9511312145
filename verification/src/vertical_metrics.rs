//! What goes into the `vmtx`, `vhea` and `VORG` tables.

use crate::cff;
use crate::cff::Bbox;
use crate::coords::Real;
use crate::error::Error;
use crate::metric_variations;
use crate::numeric;
use crate::text;
use vstd::prelude::*;

verus! {

/// The vertical origin of a glyph that differs from the default.
#[derive(Debug, Clone, Copy, PartialEq, Eq, Structural)]
pub struct VertOriginYMetrics {
    pub glyph_index: u16,
    pub vert_origin_y: i16,
}

/// A `VORG` table.
#[derive(Debug, PartialEq, Eq)]
pub struct Vorg {
    pub default_vert_origin_y: i16,
    pub vert_origin_y_metrics: Vec<VertOriginYMetrics>,
}

/// The vertical origins of some glyphs.
pub open spec fn origins_of(glyphs: Seq<(u16, i16)>) -> Seq<i16> {
    glyphs.map_values(|g: (u16, i16)| g.1)
}

/// A record for each glyph whose origin is not the default, in glyph order.
pub open spec fn vorg_records(glyphs: Seq<(u16, i16)>, default: i16) -> Seq<VertOriginYMetrics>
    decreases glyphs.len(),
{
    if glyphs.len() == 0 {
        seq![]
    } else {
        let rest = vorg_records(glyphs.drop_last(), default);
        if glyphs.last().1 != default {
            rest.push(
                VertOriginYMetrics { glyph_index: glyphs.last().0, vert_origin_y: glyphs.last().1 },
            )
        } else {
            rest
        }
    }
}

/// Build `VORG` from the vertical origin of every glyph, in glyph order.
///
/// The default is the most common origin, the first seen of those that are
/// equally common. Records are only written for glyphs that differ from it.
pub fn build_vorg_table(vertical_origins: &Vec<(u16, i16)>) -> (r: Option<Vorg>)
    ensures
        r is None <==> vertical_origins@.len() == 0,
        match r {
            Some(vorg) => {
                &&& metric_variations::is_most_common(
                    origins_of(vertical_origins@),
                    vorg.default_vert_origin_y,
                )
                &&& vorg.vert_origin_y_metrics@ == vorg_records(
                    vertical_origins@,
                    vorg.default_vert_origin_y,
                )
            },
            None => true,
        },
{
    let mut origins: Vec<i16> = Vec::new();
    let mut i: usize = 0;
    while i < vertical_origins.len()
        invariant
            i <= vertical_origins@.len(),
            origins@ =~= origins_of(vertical_origins@).take(i as int),
        decreases vertical_origins.len() - i,
    {
        origins.push(vertical_origins[i].1);
        i = i + 1;
    }
    assert(origins@ =~= origins_of(vertical_origins@));
    let default_vert_origin_y: i16 = match metric_variations::most_common(&origins) {
        Some(v) => v,
        None => return None,
    };
    let mut records: Vec<VertOriginYMetrics> = Vec::new();
    let mut k: usize = 0;
    while k < vertical_origins.len()
        invariant
            k <= vertical_origins@.len(),
            records@ == vorg_records(vertical_origins@.take(k as int), default_vert_origin_y),
        decreases vertical_origins.len() - k,
    {
        assert(vertical_origins@.take(k + 1).drop_last() =~= vertical_origins@.take(k as int));
        if vertical_origins[k].1 != default_vert_origin_y {
            records.push(
                VertOriginYMetrics {
                    glyph_index: vertical_origins[k].0,
                    vert_origin_y: vertical_origins[k].1,
                },
            );
        }
        k = k + 1;
    }
    assert(vertical_origins@.take(k as int) =~= vertical_origins@);
    Some(Vorg { default_vert_origin_y, vert_origin_y_metrics: records })
}

/// What a reader takes for the origin of a glyph: its record's, or the default
/// if it has none.
pub open spec fn origin_read(records: Seq<VertOriginYMetrics>, default: i16, glyph: u16) -> i16
    decreases records.len(),
{
    if records.len() == 0 {
        default
    } else if records.last().glyph_index == glyph {
        records.last().vert_origin_y
    } else {
        origin_read(records.drop_last(), default, glyph)
    }
}

/// Whatever default a table has, reading it gives every glyph back its origin.
pub proof fn law_vorg_gives_back_origins(glyphs: Seq<(u16, i16)>, default: i16, g: int)
    requires
        0 <= g < glyphs.len(),
        forall|i: int, j: int| 0 <= i < j < glyphs.len() ==> glyphs[i].0 != glyphs[j].0,
    ensures
        origin_read(vorg_records(glyphs, default), default, glyphs[g].0) == glyphs[g].1,
    decreases glyphs.len(),
{
    let rest = glyphs.drop_last();
    let records = vorg_records(rest, default);
    if g == glyphs.len() - 1 {
        if glyphs[g].1 == default {
            lemma_no_record(rest, default, glyphs[g].0);
        }
    } else {
        law_vorg_gives_back_origins(rest, default, g);
        assert(rest[g] == glyphs[g]);
        if glyphs.last().1 != default {
            assert(vorg_records(glyphs, default).drop_last() =~= records);
        }
    }
}

proof fn lemma_no_record(glyphs: Seq<(u16, i16)>, default: i16, glyph: u16)
    requires
        forall|i: int| 0 <= i < glyphs.len() ==> (#[trigger] glyphs[i]).0 != glyph,
    ensures
        origin_read(vorg_records(glyphs, default), default, glyph) == default,
    decreases glyphs.len(),
{
    if glyphs.len() > 0 {
        lemma_no_record(glyphs.drop_last(), default, glyph);
        assert(glyphs[glyphs.len() - 1].0 != glyph);
        if glyphs.last().1 != default {
            assert(vorg_records(glyphs, default).drop_last() =~= vorg_records(
                glyphs.drop_last(),
                default,
            ));
        }
    }
}

/// Glyphs whose origins all agree need no records.
pub proof fn law_one_origin_needs_no_records(glyphs: Seq<(u16, i16)>, default: i16)
    requires
        forall|i: int| 0 <= i < glyphs.len() ==> (#[trigger] glyphs[i]).1 == default,
    ensures
        vorg_records(glyphs, default).len() == 0,
    decreases glyphs.len(),
{
    if glyphs.len() > 0 {
        law_one_origin_needs_no_records(glyphs.drop_last(), default);
        assert(glyphs[glyphs.len() - 1].1 == default);
    }
}

/// What is known of a glyph's vertical metrics.
#[derive(Debug)]
pub struct VerticalGlyph {
    pub name: String,
    pub advance: u16,
    pub vertical_origin: i16,
    /// The box of its compiled outline, in a font with `glyf`.
    pub glyf_bbox: Option<Bbox>,
}

/// The bounds recorded while a `CFF ` table was built, by glyph index.
#[derive(Debug)]
pub struct CffBounds {
    pub glyph_bounds: Vec<Option<[i32; 4]>>,
    pub glyph_outer_bounds: Vec<Option<[i32; 4]>>,
}

/// One row of vertical metrics.
#[derive(Debug, Clone, Copy, PartialEq, Eq, Structural)]
pub struct VerticalRow {
    pub advance: u16,
    pub side_bearing: i16,
    /// The height of the outline, if there is one.
    pub bounds_advance: Option<i32>,
}

/// The bounds recorded for glyph `i`, if any.
pub open spec fn bounds_at(bounds: Seq<Option<[i32; 4]>>, i: int) -> Option<[i32; 4]> {
    if i < bounds.len() {
        bounds[i]
    } else {
        None
    }
}

pub open spec fn bounds_fit(b: [i32; 4]) -> bool {
    forall|s: int| 0 <= s < 4 ==> cff::fits_i16(#[trigger] b@[s] as int)
}

/// Whether the recorded bounds of glyph `i`, if there are any, fit the tables.
pub open spec fn recorded_fit(cff: Option<CffBounds>, i: int) -> bool {
    match cff {
        Some(cff) => {
            &&& bounds_at(cff.glyph_bounds@, i) matches Some(b) ==> bounds_fit(b)
            &&& bounds_at(cff.glyph_outer_bounds@, i) matches Some(b) ==> bounds_fit(b)
        },
        None => true,
    }
}

/// The top of glyph `i`, zero if it draws nothing.
pub open spec fn top_of(glyph: VerticalGlyph, cff: Option<CffBounds>, i: int) -> int {
    match cff {
        Some(cff) => match bounds_at(cff.glyph_bounds@, i) {
            Some(b) => b@[3] as int,
            None => 0,
        },
        None => match glyph.glyf_bbox {
            Some(bbox) => bbox.y_max as int,
            None => 0,
        },
    }
}

/// The height of glyph `i`, if it draws anything.
pub open spec fn height_of(glyph: VerticalGlyph, cff: Option<CffBounds>, i: int) -> Option<int> {
    match cff {
        Some(cff) => match bounds_at(cff.glyph_outer_bounds@, i) {
            Some(b) => Some(b@[3] - b@[1]),
            None => None,
        },
        None => match glyph.glyf_bbox {
            Some(bbox) => Some(bbox.y_max - bbox.y_min),
            None => None,
        },
    }
}

/// The row of glyph `i`: the side bearing comes from its rounded box, the
/// height it spans from the outer one.
pub open spec fn is_row_of(
    glyph: VerticalGlyph,
    cff: Option<CffBounds>,
    i: int,
    row: VerticalRow,
) -> bool {
    &&& row.advance == glyph.advance
    &&& row.side_bearing == glyph.vertical_origin - top_of(glyph, cff, i)
    &&& match (row.bounds_advance, height_of(glyph, cff, i)) {
        (Some(h), Some(want)) => h == want,
        (None, None) => true,
        _ => false,
    }
}

/// The error for glyph `i`: that of its rounded box, or else that of its outer
/// one.
pub open spec fn fails_at(
    glyph: VerticalGlyph,
    cff: Option<CffBounds>,
    i: int,
    e: Error,
) -> bool {
    match cff {
        Some(cff) => match bounds_at(cff.glyph_bounds@, i) {
            Some(b) => if bounds_fit(b) {
                outer_fails_at(glyph, cff, i, e)
            } else {
                cff::boxes_to(glyph.name@, b@, Err(e))
            },
            None => outer_fails_at(glyph, cff, i, e),
        },
        None => false,
    }
}

pub open spec fn outer_fails_at(glyph: VerticalGlyph, cff: CffBounds, i: int, e: Error) -> bool {
    bounds_at(cff.glyph_outer_bounds@, i) matches Some(b) && cff::boxes_to(
        glyph.name@,
        b@,
        Err(e),
    )
}

fn recorded_box(bounds: &Vec<Option<[i32; 4]>>, i: usize, name: &String) -> (r: Result<
    Option<Bbox>,
    Error,
>)
    ensures
        r is Ok <==> (bounds_at(bounds@, i as int) matches Some(b) ==> bounds_fit(b)),
        match r {
            Ok(Some(bbox)) => {
                &&& bounds_at(bounds@, i as int) is Some
                &&& bbox.y_min == bounds_at(bounds@, i as int)->0@[1]
                &&& bbox.y_max == bounds_at(bounds@, i as int)->0@[3]
            },
            Ok(None) => bounds_at(bounds@, i as int) is None,
            Err(e) => bounds_at(bounds@, i as int) is Some && cff::boxes_to(
                name@,
                bounds_at(bounds@, i as int)->0@,
                Err(e),
            ),
        },
{
    if i < bounds.len() {
        match bounds[i] {
            Some(b) => {
                proof {
                    assert(bounds_fit(b) ==> cff::fits_i16(b@[0] as int) && cff::fits_i16(
                        b@[1] as int,
                    ) && cff::fits_i16(b@[2] as int) && cff::fits_i16(b@[3] as int));
                }
                match cff::bbox_from_cff(name, b) {
                    Ok(bbox) => Ok(Some(bbox)),
                    Err(e) => Err(e),
                }
            },
            None => Ok(None),
        }
    } else {
        Ok(None)
    }
}

/// The vertical metrics of every glyph, in glyph order.
///
/// Fails at the first glyph whose recorded bounds do not fit the tables.
pub fn vertical_rows(glyphs: &Vec<VerticalGlyph>, cff: &Option<CffBounds>) -> (r: Result<
    Vec<VerticalRow>,
    Error,
>)
    requires
        forall|i: int|
            0 <= i < glyphs@.len() ==> cff::fits_i16(
                (#[trigger] glyphs@[i]).vertical_origin - top_of(glyphs@[i], *cff, i),
            ) || !recorded_fit(*cff, i),
    ensures
        r is Ok <==> forall|i: int| 0 <= i < glyphs@.len() ==> #[trigger] recorded_fit(*cff, i),
        match r {
            Ok(rows) => are_rows(glyphs@, *cff, rows@),
            Err(e) => fails_first(glyphs@, *cff, e),
        },
{
    let mut rows: Vec<VerticalRow> = Vec::new();
    let mut i: usize = 0;
    while i < glyphs.len()
        invariant
            i <= glyphs@.len(),
            forall|i: int|
                0 <= i < glyphs@.len() ==> cff::fits_i16(
                    (#[trigger] glyphs@[i]).vertical_origin - top_of(glyphs@[i], *cff, i),
                ) || !recorded_fit(*cff, i),
            forall|k: int| 0 <= k < i ==> #[trigger] recorded_fit(*cff, k),
            rows@.len() == i,
            forall|k: int|
                0 <= k < i ==> is_row_of(glyphs@[k], *cff, k, #[trigger] rows@[k]),
        decreases glyphs.len() - i,
    {
        let glyph: &VerticalGlyph = &glyphs[i];
        let (bbox, outer): (Option<Bbox>, Option<Bbox>) = match cff {
            Some(recorded) => {
                let bbox: Option<Bbox> = match recorded_box(
                    &recorded.glyph_bounds,
                    i,
                    &glyph.name,
                ) {
                    Ok(bbox) => bbox,
                    Err(e) => {
                        assert(!recorded_fit(*cff, i as int));
                        assert(fails_at(glyphs@[i as int], *cff, i as int, e));
                        return Err(e);
                    },
                };
                let outer: Option<Bbox> = match recorded_box(
                    &recorded.glyph_outer_bounds,
                    i,
                    &glyph.name,
                ) {
                    Ok(outer) => outer,
                    Err(e) => {
                        assert(!recorded_fit(*cff, i as int));
                        assert(fails_at(glyphs@[i as int], *cff, i as int, e));
                        return Err(e);
                    },
                };
                (bbox, outer)
            },
            None => (glyph.glyf_bbox, glyph.glyf_bbox),
        };
        assert(recorded_fit(*cff, i as int));
        let top: i16 = match bbox {
            Some(bbox) => bbox.y_max,
            None => 0,
        };
        assert(top == top_of(glyphs@[i as int], *cff, i as int));
        let bounds_advance: Option<i32> = match outer {
            Some(outer) => Some(outer.y_max as i32 - outer.y_min as i32),
            None => None,
        };
        rows.push(
            VerticalRow {
                advance: glyph.advance,
                side_bearing: glyph.vertical_origin - top,
                bounds_advance,
            },
        );
        i = i + 1;
    }
    Ok(rows)
}

/// The rows of all glyphs, if the bounds of every one fit.
pub open spec fn are_rows(
    glyphs: Seq<VerticalGlyph>,
    cff: Option<CffBounds>,
    rows: Seq<VerticalRow>,
) -> bool {
    &&& rows.len() == glyphs.len()
    &&& forall|i: int|
        0 <= i < glyphs.len() ==> #[trigger] recorded_fit(cff, i) && is_row_of(
            glyphs[i],
            cff,
            i,
            rows[i],
        )
}

/// The error for the first glyph whose recorded bounds do not fit.
pub open spec fn fails_first(
    glyphs: Seq<VerticalGlyph>,
    cff: Option<CffBounds>,
    e: Error,
) -> bool {
    exists|i: int|
        0 <= i < glyphs.len() && #[trigger] fails_at(glyphs[i], cff, i, e) && forall|k: int|
            0 <= k < i ==> #[trigger] recorded_fit(cff, k)
}

/// The vertical metrics of the default location, and the caret.
#[derive(Debug, Clone, Copy, PartialEq, Eq, Structural)]
pub struct VheaDefaults {
    pub ascender: Real,
    pub descender: Real,
    pub line_gap: Real,
    pub caret_slope_rise: Real,
    pub caret_slope_run: Real,
    pub caret_offset: Real,
}

/// The vertical metrics of all glyphs, and their extremes.
#[derive(Debug, PartialEq, Eq)]
pub struct Metrics {
    pub advance_max: u16,
    pub min_first_side_bearing: i16,
    pub min_second_side_bearing: i16,
    pub max_extent: i16,
    /// The advance and the side bearing of each glyph that has an advance of
    /// its own.
    pub long_metrics: Vec<(u16, i16)>,
    /// The side bearings of the glyphs after those.
    pub first_side_bearings: Vec<i16>,
}

/// What feature code may override.
#[derive(Debug, Clone, Copy, PartialEq, Eq, Structural)]
pub struct FeaVhea {
    pub ascender: i16,
    pub descender: i16,
    pub line_gap: i16,
}

/// A `vhea` table.
#[derive(Debug, Clone, Copy, PartialEq, Eq, Structural)]
pub struct Vhea {
    pub ascender: i16,
    pub descender: i16,
    pub line_gap: i16,
    pub advance_height_max: u16,
    pub min_top_side_bearing: i16,
    pub min_bottom_side_bearing: i16,
    pub y_max_extent: i16,
    pub caret_slope_rise: i16,
    pub caret_slope_run: i16,
    pub caret_offset: i16,
    pub number_of_long_ver_metrics: u16,
}

/// `vhea` is the table of a font with these metrics.
pub open spec fn is_vhea_of<R: Fn(Real) -> i16>(
    round: R,
    defaults: VheaDefaults,
    metrics: Metrics,
    fea: Option<FeaVhea>,
    vhea: Vhea,
) -> bool {
    &&& vhea.ascender == (match fea {
        Some(fea) => fea.ascender,
        None => numeric::image(round, defaults.ascender),
    })
    &&& vhea.descender == (match fea {
        Some(fea) => fea.descender,
        None => numeric::image(round, defaults.descender),
    })
    &&& vhea.line_gap == (match fea {
        Some(fea) => fea.line_gap,
        None => numeric::image(round, defaults.line_gap),
    })
    &&& vhea.advance_height_max == metrics.advance_max
    &&& vhea.min_top_side_bearing == metrics.min_first_side_bearing
    &&& vhea.min_bottom_side_bearing == metrics.min_second_side_bearing
    &&& vhea.y_max_extent == metrics.max_extent
    &&& vhea.caret_slope_rise == numeric::image(round, defaults.caret_slope_rise)
    &&& vhea.caret_slope_run == numeric::image(round, defaults.caret_slope_run)
    &&& vhea.caret_offset == numeric::image(round, defaults.caret_offset)
    &&& vhea.number_of_long_ver_metrics == metrics.long_metrics@.len()
}

/// The error for more advances than a table can have.
pub open spec fn too_many_advances(metrics: Metrics, e: Error) -> bool {
    &&& metrics.long_metrics@.len() > 0xFFFF
    &&& e matches Error::OutOfBounds { what, value } && what@ == "number_of_long_metrics"@
        && value@ == text::decimal(metrics.long_metrics@.len())
}

/// The `vhea` table of a font. Feature code can only override the ascender, the
/// descender and the line gap.
pub fn build_vhea<R: Fn(Real) -> i16>(
    defaults: VheaDefaults,
    round: &R,
    metrics: &Metrics,
    fea: Option<FeaVhea>,
) -> (r: Result<Vhea, Error>)
    requires
        numeric::is_map(*round),
    ensures
        match r {
            Ok(vhea) => metrics.long_metrics@.len() <= 0xFFFF && is_vhea_of(
                *round,
                defaults,
                *metrics,
                fea,
                vhea,
            ),
            Err(e) => too_many_advances(*metrics, e),
        },
{
    if metrics.long_metrics.len() > 0xFFFF {
        return Err(
            Error::OutOfBounds {
                what: "number_of_long_metrics".to_string(),
                value: text::decimal_of(metrics.long_metrics.len() as u64),
            },
        );
    }
    let mut vhea = Vhea {
        ascender: numeric::apply(round, defaults.ascender),
        descender: numeric::apply(round, defaults.descender),
        line_gap: numeric::apply(round, defaults.line_gap),
        advance_height_max: metrics.advance_max,
        min_top_side_bearing: metrics.min_first_side_bearing,
        min_bottom_side_bearing: metrics.min_second_side_bearing,
        y_max_extent: metrics.max_extent,
        caret_slope_rise: numeric::apply(round, defaults.caret_slope_rise),
        caret_slope_run: numeric::apply(round, defaults.caret_slope_run),
        caret_offset: numeric::apply(round, defaults.caret_offset),
        number_of_long_ver_metrics: metrics.long_metrics.len() as u16,
    };
    if let Some(fea) = fea {
        vhea.ascender = fea.ascender;
        vhea.descender = fea.descender;
        vhea.line_gap = fea.line_gap;
    }
    Ok(vhea)
}

/// Two bytes, the high one first, negative numbers as two's complements.
pub open spec fn big_endian(n: int) -> Seq<u8> {
    let n = if n < 0 {
        n + 0x10000
    } else {
        n
    };
    seq![(n / 256) as u8, (n % 256) as u8]
}

/// The advances and side bearings of a `vmtx` table.
pub open spec fn long_bytes(long_metrics: Seq<(u16, i16)>) -> Seq<u8>
    decreases long_metrics.len(),
{
    if long_metrics.len() == 0 {
        seq![]
    } else {
        long_bytes(long_metrics.drop_last()) + big_endian(long_metrics.last().0 as int)
            + big_endian(long_metrics.last().1 as int)
    }
}

/// The lone side bearings of a `vmtx` table.
pub open spec fn bearing_bytes(bearings: Seq<i16>) -> Seq<u8>
    decreases bearings.len(),
{
    if bearings.len() == 0 {
        seq![]
    } else {
        bearing_bytes(bearings.drop_last()) + big_endian(bearings.last() as int)
    }
}

/// A `vmtx` table.
pub open spec fn vmtx_bytes(long_metrics: Seq<(u16, i16)>, bearings: Seq<i16>) -> Seq<u8> {
    long_bytes(long_metrics) + bearing_bytes(bearings)
}

/// The number in the two bytes at `at`, if it cannot be negative.
pub open spec fn unsigned_at(bytes: Seq<u8>, at: int) -> int {
    bytes[at] * 256 + bytes[at + 1]
}

/// The number in the two bytes at `at`, if it can be negative.
pub open spec fn signed_at(bytes: Seq<u8>, at: int) -> int {
    let n = unsigned_at(bytes, at);
    if n < 0x8000 {
        n
    } else {
        n - 0x10000
    }
}

proof fn lemma_long_reads_back(long_metrics: Seq<(u16, i16)>, k: int)
    requires
        0 <= k <= long_metrics.len(),
    ensures
        long_bytes(long_metrics).len() == 4 * long_metrics.len(),
        k < long_metrics.len() ==> unsigned_at(long_bytes(long_metrics), 4 * k)
            == long_metrics[k].0 && signed_at(long_bytes(long_metrics), 4 * k + 2)
            == long_metrics[k].1,
    decreases long_metrics.len(),
{
    if long_metrics.len() > 0 {
        let rest = long_metrics.drop_last();
        if k < rest.len() {
            lemma_long_reads_back(rest, k);
            assert(rest[k] == long_metrics[k]);
        } else {
            lemma_long_reads_back(rest, rest.len() as int);
        }
    }
}

proof fn lemma_bearing_reads_back(bearings: Seq<i16>, k: int)
    requires
        0 <= k <= bearings.len(),
    ensures
        bearing_bytes(bearings).len() == 2 * bearings.len(),
        k < bearings.len() ==> signed_at(bearing_bytes(bearings), 2 * k) == bearings[k],
    decreases bearings.len(),
{
    if bearings.len() > 0 {
        let rest = bearings.drop_last();
        if k < rest.len() {
            lemma_bearing_reads_back(rest, k);
            assert(rest[k] == bearings[k]);
        } else {
            lemma_bearing_reads_back(rest, rest.len() as int);
        }
    }
}

/// Reading a `vmtx` table gives every glyph back its metrics: the advance and
/// the side bearing of each that has both, and the side bearing of the others.
pub proof fn law_vmtx_reads_back(long_metrics: Seq<(u16, i16)>, bearings: Seq<i16>, k: int)
    requires
        0 <= k < long_metrics.len() + bearings.len(),
    ensures
        vmtx_bytes(long_metrics, bearings).len() == 4 * long_metrics.len() + 2 * bearings.len(),
        k < long_metrics.len() ==> {
            let bytes = vmtx_bytes(long_metrics, bearings);
            unsigned_at(bytes, 4 * k) == long_metrics[k].0 && signed_at(bytes, 4 * k + 2)
                == long_metrics[k].1
        },
        k >= long_metrics.len() ==> {
            let from = k - long_metrics.len();
            signed_at(vmtx_bytes(long_metrics, bearings), 4 * long_metrics.len() + 2 * from)
                == bearings[from]
        },
{
    if k < long_metrics.len() {
        lemma_long_reads_back(long_metrics, k);
        lemma_bearing_reads_back(bearings, 0);
    } else {
        lemma_long_reads_back(long_metrics, 0);
        lemma_bearing_reads_back(bearings, k - long_metrics.len());
    }
}

/// `write_fonts::dump_table` of a `write_fonts::tables::vmtx::Vmtx`.
///
/// A table is written if its advances can be counted in two bytes, and it is
/// nothing but its numbers one after the other, big-endian. A table of more
/// bytes than four of them can count is not to be asked for.
#[verifier::external_body]
fn dump_vmtx(long_metrics: &Vec<(u16, i16)>, bearings: &Vec<i16>) -> (r: Result<Vec<u8>, String>)
    requires
        4 * long_metrics@.len() + 2 * bearings@.len() <= u32::MAX,
    ensures
        r is Ok <==> long_metrics@.len() <= 0xFFFF,
        r matches Ok(bytes) ==> bytes@ == vmtx_bytes(long_metrics@, bearings@),
{
    let long = long_metrics.iter().map(|m| write_fonts::tables::vmtx::LongMetric::new(m.0, m.1));
    let vmtx = write_fonts::tables::vmtx::Vmtx::new(long.collect(), bearings.clone());
    write_fonts::dump_table(&vmtx).map_err(|e| e.to_string())
}

/// `r` may be what `f` collates of these rows.
pub open spec fn collates_to<C: Fn(&Vec<VerticalRow>) -> Metrics>(
    f: C,
    rows: Seq<VerticalRow>,
    r: Metrics,
) -> bool {
    exists|v: Vec<VerticalRow>| v@ == rows && #[trigger] call_ensures(f, (&v,), r)
}

/// `f` takes any rows, and leaves none out.
pub open spec fn is_collation<C: Fn(&Vec<VerticalRow>) -> Metrics>(f: C) -> bool {
    &&& forall|v: Vec<VerticalRow>| call_requires(f, (&v,))
    &&& forall|rows: Seq<VerticalRow>, r: Metrics| #[trigger]
        collates_to(f, rows, r) ==> r.long_metrics@.len() + r.first_side_bearings@.len()
            == rows.len()
}

/// The tables of a font for vertical writing.
#[derive(Debug, PartialEq, Eq)]
pub struct VerticalTables {
    pub vhea: Vhea,
    pub vmtx: Vec<u8>,
    /// Only a font with PostScript outlines has one.
    pub vorg: Option<Vorg>,
}

/// The vertical origin of each glyph, by glyph index.
pub open spec fn indexed_origins(glyphs: Seq<VerticalGlyph>) -> Seq<(u16, i16)> {
    Seq::new(glyphs.len(), |i: int| (i as u16, glyphs[i].vertical_origin))
}

/// `vorg` is the table of vertical origins of these glyphs, if there are any.
pub open spec fn is_vorg_of(glyphs: Seq<VerticalGlyph>, vorg: Option<Vorg>) -> bool {
    &&& vorg is Some <==> glyphs.len() > 0
    &&& vorg matches Some(vorg) ==> {
        &&& metric_variations::is_most_common(
            origins_of(indexed_origins(glyphs)),
            vorg.default_vert_origin_y,
        )
        &&& vorg.vert_origin_y_metrics@ == vorg_records(
            indexed_origins(glyphs),
            vorg.default_vert_origin_y,
        )
    }
}

fn vorg_of(glyphs: &Vec<VerticalGlyph>) -> (r: Option<Vorg>)
    requires
        glyphs@.len() <= 0x10000,
    ensures
        is_vorg_of(glyphs@, r),
{
    let mut origins: Vec<(u16, i16)> = Vec::new();
    let mut i: usize = 0;
    while i < glyphs.len()
        invariant
            i <= glyphs@.len() <= 0x10000,
            origins@ =~= indexed_origins(glyphs@).take(i as int),
        decreases glyphs.len() - i,
    {
        origins.push((i as u16, glyphs[i].vertical_origin));
        i = i + 1;
    }
    assert(origins@ =~= indexed_origins(glyphs@));
    build_vorg_table(&origins)
}

/// The metrics that a font's tables are made of.
pub open spec fn are_metrics_of<C: Fn(&Vec<VerticalRow>) -> Metrics>(
    collate: C,
    glyphs: Seq<VerticalGlyph>,
    cff: Option<CffBounds>,
    metrics: Metrics,
) -> bool {
    exists|rows: Seq<VerticalRow>|
        are_rows(glyphs, cff, rows) && #[trigger] collates_to(collate, rows, metrics)
}

/// The vertical tables of a font, if it is one for vertical writing.
///
/// `cff` is there in a font with PostScript outlines, and no other has a `VORG`.
/// `collate` finds the extremes of all rows and shares the advances that the
/// last ones have in common.
pub fn vertical_tables<R: Fn(Real) -> i16, C: Fn(&Vec<VerticalRow>) -> Metrics>(
    build_vertical: bool,
    glyphs: &Vec<VerticalGlyph>,
    cff: &Option<CffBounds>,
    defaults: VheaDefaults,
    fea: Option<FeaVhea>,
    round: &R,
    collate: &C,
) -> (r: Result<Option<VerticalTables>, Error>)
    requires
        glyphs@.len() <= 0x10000,
        forall|i: int|
            0 <= i < glyphs@.len() ==> cff::fits_i16(
                (#[trigger] glyphs@[i]).vertical_origin - top_of(glyphs@[i], *cff, i),
            ) || !recorded_fit(*cff, i),
        numeric::is_map(*round),
        is_collation(*collate),
    ensures
        match r {
            Ok(None) => !build_vertical,
            Ok(Some(tables)) => {
                &&& build_vertical
                &&& exists|metrics: Metrics| #[trigger]
                    are_metrics_of(*collate, glyphs@, *cff, metrics) && is_vhea_of(
                        *round,
                        defaults,
                        metrics,
                        fea,
                        tables.vhea,
                    ) && tables.vmtx@ == vmtx_bytes(
                        metrics.long_metrics@,
                        metrics.first_side_bearings@,
                    )
                &&& if cff is Some {
                    is_vorg_of(glyphs@, tables.vorg)
                } else {
                    tables.vorg is None
                }
            },
            Err(e) => {
                &&& build_vertical
                &&& fails_first(glyphs@, *cff, e) || exists|metrics: Metrics| #[trigger]
                    are_metrics_of(*collate, glyphs@, *cff, metrics) && too_many_advances(
                        metrics,
                        e,
                    )
            },
        },
{
    if !build_vertical {
        return Ok(None);
    }
    let rows: Vec<VerticalRow> = match vertical_rows(glyphs, cff) {
        Ok(rows) => rows,
        Err(e) => return Err(e),
    };
    let metrics: Metrics = collate(&rows);
    assert(collates_to(*collate, rows@, metrics));
    assert(are_metrics_of(*collate, glyphs@, *cff, metrics));
    let vhea: Vhea = match build_vhea(defaults, round, &metrics, fea) {
        Ok(vhea) => vhea,
        Err(e) => return Err(e),
    };
    let vmtx: Vec<u8> = match dump_vmtx(&metrics.long_metrics, &metrics.first_side_bearings) {
        Ok(vmtx) => vmtx,
        Err(why) => return Err(Error::DumpTableError(why, "vmtx".to_string())),
    };
    let vorg: Option<Vorg> = if cff.is_some() {
        vorg_of(glyphs)
    } else {
        None
    };
    Ok(Some(VerticalTables { vhea, vmtx, vorg }))
}

/// The vertical metrics of a glyph in a font with PostScript outlines: its
/// advance, how far the top of its rounded box is below its origin, and how
/// high its outer box is. A glyph without a box has its top at zero and no
/// height.
pub proof fn law_rows_of_postscript_outlines(
    glyphs: Seq<VerticalGlyph>,
    cff: CffBounds,
    rows: Seq<VerticalRow>,
    i: int,
)
    requires
        are_rows(glyphs, Some(cff), rows),
        0 <= i < glyphs.len(),
        cff.glyph_bounds@.len() == glyphs.len(),
        cff.glyph_outer_bounds@.len() == glyphs.len(),
    ensures
        rows.len() == glyphs.len(),
        rows[i].advance == glyphs[i].advance,
        cff.glyph_bounds@[i] matches Some(b) ==> rows[i].side_bearing == glyphs[i].vertical_origin
            - b@[3],
        cff.glyph_bounds@[i] is None ==> rows[i].side_bearing == glyphs[i].vertical_origin,
        cff.glyph_outer_bounds@[i] matches Some(b) ==> (rows[i].bounds_advance matches Some(height)
            && height == b@[3] - b@[1]),
        cff.glyph_outer_bounds@[i] is None ==> rows[i].bounds_advance is None,
{
    assert(recorded_fit(Some(cff), i));
}

/// The vertical metrics of a glyph in any other font come of the box of its
/// compiled outline.
pub proof fn law_rows_of_other_outlines(
    glyphs: Seq<VerticalGlyph>,
    rows: Seq<VerticalRow>,
    i: int,
)
    requires
        are_rows(glyphs, None, rows),
        0 <= i < glyphs.len(),
    ensures
        rows.len() == glyphs.len(),
        rows[i].advance == glyphs[i].advance,
        glyphs[i].glyf_bbox matches Some(b) ==> rows[i].side_bearing == glyphs[i].vertical_origin
            - b.y_max && (rows[i].bounds_advance matches Some(height) && height == b.y_max - b.y_min),
        glyphs[i].glyf_bbox is None ==> rows[i].side_bearing == glyphs[i].vertical_origin
            && rows[i].bounds_advance is None,
{
    assert(recorded_fit(None, i));
}

/// Only bounds beyond sixteen bits fail, those of the first such glyph, and
/// they fail with its name.
pub proof fn law_only_bounds_too_far_out_fail(
    glyphs: Seq<VerticalGlyph>,
    cff: Option<CffBounds>,
    e: Error,
)
    requires
        fails_first(glyphs, cff, e),
    ensures
        cff is Some,
        e is OutOfBounds,
        exists|i: int|
            0 <= i < glyphs.len() && #[trigger] fails_at(glyphs[i], cff, i, e) && (forall|k: int|
                0 <= k < i ==> #[trigger] recorded_fit(cff, k)) && (
            e matches Error::OutOfBounds { what, .. } && what@.len() >= glyphs[i].name@.len()
                && what@.take(glyphs[i].name@.len() as int) == glyphs[i].name@),
{
    let i = choose|i: int|
        0 <= i < glyphs.len() && #[trigger] fails_at(glyphs[i], cff, i, e) && forall|k: int|
            0 <= k < i ==> #[trigger] recorded_fit(cff, k);
    if let Error::OutOfBounds { what, value } = e {
        assert(what@.take(glyphs[i].name@.len() as int) =~= glyphs[i].name@);
    }
}

/// Each number of a `vhea` table is the one of its name: of feature code where
/// that states ascender, descender and line gap, and otherwise of the font.
pub proof fn law_vhea_numbers_go_by_their_own_names<R: Fn(Real) -> i16>(
    round: R,
    defaults: VheaDefaults,
    metrics: Metrics,
    fea: Option<FeaVhea>,
    vhea: Vhea,
)
    requires
        is_vhea_of(round, defaults, metrics, fea, vhea),
    ensures
        fea matches Some(fea) ==> vhea.ascender == fea.ascender && vhea.descender == fea.descender
            && vhea.line_gap == fea.line_gap,
        fea is None ==> vhea.ascender == numeric::image(round, defaults.ascender) && vhea.descender
            == numeric::image(round, defaults.descender) && vhea.line_gap == numeric::image(
            round,
            defaults.line_gap,
        ),
        vhea.caret_slope_rise == numeric::image(round, defaults.caret_slope_rise),
        vhea.caret_slope_run == numeric::image(round, defaults.caret_slope_run),
        vhea.caret_offset == numeric::image(round, defaults.caret_offset),
        vhea.advance_height_max == metrics.advance_max,
        vhea.min_top_side_bearing == metrics.min_first_side_bearing,
        vhea.min_bottom_side_bearing == metrics.min_second_side_bearing,
        vhea.y_max_extent == metrics.max_extent,
        vhea.number_of_long_ver_metrics == metrics.long_metrics@.len(),
{
}

/// There is a record for each glyph whose origin is not the default, with its
/// index and its origin, in glyph order, and for no other.
pub proof fn law_only_other_origins_are_recorded(
    glyphs: Seq<(u16, i16)>,
    default: i16,
    index: u16,
    origin: i16,
)
    ensures
        vorg_records(Seq::empty(), default).len() == 0,
        vorg_records(glyphs.push((index, origin)), default) == if origin == default {
            vorg_records(glyphs, default)
        } else {
            vorg_records(glyphs, default).push(
                VertOriginYMetrics { glyph_index: index, vert_origin_y: origin },
            )
        },
{
    assert(glyphs.push((index, origin)).drop_last() =~= glyphs);
}

/// A `VORG` table gives each glyph, by its index, the origin that it has.
pub proof fn law_vorg_has_the_origin_of_each_glyph(
    glyphs: Seq<VerticalGlyph>,
    vorg: Option<Vorg>,
    i: int,
)
    requires
        is_vorg_of(glyphs, vorg),
        glyphs.len() <= 0x10000,
        0 <= i < glyphs.len(),
    ensures
        vorg matches Some(vorg) && origin_read(
            vorg.vert_origin_y_metrics@,
            vorg.default_vert_origin_y,
            i as u16,
        ) == glyphs[i].vertical_origin,
{
    let listed = indexed_origins(glyphs);
    assert forall|a: int, b: int| 0 <= a < b < listed.len() implies listed[a].0 != listed[b].0 by {
        assert(listed[a].0 == a as u16 && listed[b].0 == b as u16);
    }
    law_vorg_gives_back_origins(listed, vorg->0.default_vert_origin_y, i);
}

/// More advances than a table can count are an error, which says how many there
/// are of what.
pub proof fn law_too_many_advances_are_counted(metrics: Metrics, e: Error)
    requires
        too_many_advances(metrics, e),
    ensures
        metrics.long_metrics@.len() > 65535,
        e matches Error::OutOfBounds { what, value } && what@ == "number_of_long_metrics"@ && value@
            == text::decimal(metrics.long_metrics@.len()),
{
}

/// Bounds fit if each of their sides does.
pub proof fn law_bounds_fit_if_each_side_does(b: [i32; 4])
    ensures
        bounds_fit(b) <==> -0x8000 <= b@[0] <= 0x7fff && -0x8000 <= b@[1] <= 0x7fff && -0x8000
            <= b@[2] <= 0x7fff && -0x8000 <= b@[3] <= 0x7fff,
{
}

} // verus!
