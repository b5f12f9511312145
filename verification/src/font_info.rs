//! A Glyphs source with some of the work of converting it done beforehand.

use crate::color_glyphs;
use crate::coords;
use crate::coords::{Axis, CoordConverter, Location, Real, Tag};
use crate::glyphs_source;
use crate::glyphs_source::{Font, FontMaster, Instance};
use crate::lookup;
use crate::pin;
use crate::source_axes;
use crate::source_axes::AxisError;
use crate::text;
use crate::toir;
use indexmap::IndexMap;
use vstd::prelude::*;

verus! {

/// A source with some of the work done.
#[derive(Debug)]
pub struct FontInfo {
    pub font: Font,
    /// The index of each master, by its id.
    pub master_indices: Vec<(String, usize)>,
    /// Where each master is, by its id.
    pub master_positions: Vec<(String, Location)>,
    /// Where every master and then every instance is, by its values.
    pub locations: Vec<(Vec<Real>, Location)>,
    /// The axes of the source that are axes of the font.
    pub axes: Vec<Axis>,
    /// The color glyphs split from each glyph, if any.
    pub color_glyphs: IndexMap<String, Vec<String>>,
}

/// `rest`, `axes` and `axis_indices` are what a source may come to once its
/// axes are known and the masters outside them are gone.
pub open spec fn sources_become<
    P: Fn(&Vec<(Real, Real)>, Real) -> Real,
    A: Fn(&Vec<(Real, Real)>, usize) -> Option<String>,
    F: Fn(&CoordConverter, Real) -> Real,
    G: Fn(&CoordConverter, Real) -> Real,
>(
    piecewise: P,
    refuse: A,
    to_user: F,
    to_design: G,
    font: Font,
    all: Seq<Axis>,
    rest: Font,
    axes: Seq<Axis>,
    axis_indices: Seq<usize>,
) -> bool {
    &&& source_axes::axes_become(piecewise, refuse, font, all)
    &&& source_axes::are_axes_of(font, all, axes, axis_indices)
    &&& if source_axes::drops_any(to_user, axes, axis_indices, font.masters@) {
        &&& source_axes::is_remainder(to_user, axes, axis_indices, font, rest)
        &&& source_axes::is_first_set(
            source_axes::default_flags(to_user, to_design, axes, axis_indices, font),
            rest.default_master_idx as int,
        )
    } else {
        rest == font
    }
}

/// `rest`, `axes` and `axis_indices` are what a source may come to.
pub open spec fn sources_may_become<
    P: Fn(&Vec<(Real, Real)>, Real) -> Real,
    A: Fn(&Vec<(Real, Real)>, usize) -> Option<String>,
    F: Fn(&CoordConverter, Real) -> Real,
    G: Fn(&CoordConverter, Real) -> Real,
>(
    piecewise: P,
    refuse: A,
    to_user: F,
    to_design: G,
    font: Font,
    rest: Font,
    axes: Seq<Axis>,
    axis_indices: Seq<usize>,
) -> bool {
    exists|all: Seq<Axis>| #[trigger]
        sources_become(
            piecewise,
            refuse,
            to_user,
            to_design,
            font,
            all,
            rest,
            axes,
            axis_indices,
        )
}

/// `e` is why a source may come to nothing.
pub open spec fn sources_may_fail_with<
    P: Fn(&Vec<(Real, Real)>, Real) -> Real,
    A: Fn(&Vec<(Real, Real)>, usize) -> Option<String>,
    F: Fn(&CoordConverter, Real) -> Real,
    G: Fn(&CoordConverter, Real) -> Real,
>(piecewise: P, refuse: A, to_user: F, to_design: G, font: Font, e: AxisError) -> bool {
    if e == AxisError::NoDefaultMaster {
        exists|all: Seq<Axis>, axes: Seq<Axis>, axis_indices: Seq<usize>|
            source_axes::axes_become(piecewise, refuse, font, all)
                && #[trigger] source_axes::are_axes_of(font, all, axes, axis_indices)
                && loses_default(to_user, to_design, axes, axis_indices, font)
    } else {
        exists|all: Seq<Axis>| #[trigger]
            source_axes::axes_fail_with(piecewise, refuse, font, all, e)
    }
}

/// The default master of what is left of a source is one of its masters.
pub open spec fn has_default(font: Font) -> bool {
    font.default_master_idx < font.masters@.len()
}

/// Read the axes off every master, and only then drop the sources that the
/// axes can't reach.
pub fn reach_sources<
    P: Fn(&Vec<(Real, Real)>, Real) -> Real,
    A: Fn(&Vec<(Real, Real)>, usize) -> Option<String>,
    F: Fn(&CoordConverter, Real) -> Real,
    G: Fn(&CoordConverter, Real) -> Real,
>(font: Font, piecewise: &P, refuse: &A, to_user: &F, to_design: &G) -> (r: Result<
    (Font, Vec<Axis>, Vec<usize>),
    AxisError,
>)
    requires
        has_default(font),
        source_axes::is_piecewise(*piecewise),
        forall|v: Vec<(Real, Real)>, at: usize| call_requires(*refuse, (&v, at)),
        pin::is_conversion(*to_user),
        pin::is_conversion(*to_design),
    ensures
        match r {
            Ok((rest, axes, axis_indices)) => has_default(rest) && sources_may_become(
                *piecewise,
                *refuse,
                *to_user,
                *to_design,
                font,
                rest,
                axes@,
                axis_indices@,
            ),
            Err(e) => sources_may_fail_with(*piecewise, *refuse, *to_user, *to_design, font, e),
        },
{
    let (axes, axis_indices): (Vec<Axis>, Vec<usize>) = match source_axes::ir_axes(
        &font,
        piecewise,
        refuse,
    ) {
        Ok(found) => found,
        Err(e) => {
            assert(sources_may_fail_with(
                *piecewise,
                *refuse,
                *to_user,
                *to_design,
                font,
                e,
            )) by {
                let all = choose|all: Seq<Axis>| #[trigger]
                    source_axes::axes_fail_with(*piecewise, *refuse, font, all, e);
                assert(e != AxisError::NoDefaultMaster);
            }
            return Err(e);
        },
    };
    let ghost all = choose|all: Seq<Axis>| #[trigger]
        source_axes::axes_become(*piecewise, *refuse, font, all) && source_axes::are_axes_of(
            font,
            all,
            axes@,
            axis_indices@,
        );
    match source_axes::drop_sources_outside_axes(font, &axes, &axis_indices, to_user, to_design) {
        Ok(rest) => {
            assert(sources_become(
                *piecewise,
                *refuse,
                *to_user,
                *to_design,
                font,
                all,
                rest,
                axes@,
                axis_indices@,
            ));
            Ok((rest, axes, axis_indices))
        },
        Err(e) => {
            assert(loses_default(*to_user, *to_design, axes@, axis_indices@, font));
            assert(source_axes::are_axes_of(font, all, axes@, axis_indices@));
            assert(sources_may_fail_with(
                *piecewise,
                *refuse,
                *to_user,
                *to_design,
                font,
                e,
            ));
            Err(e)
        },
    }
}

/// The default master goes, and no other takes over.
pub open spec fn loses_default<
    F: Fn(&CoordConverter, Real) -> Real,
    G: Fn(&CoordConverter, Real) -> Real,
>(
    to_user: F,
    to_design: G,
    axes: Seq<Axis>,
    axis_indices: Seq<usize>,
    font: Font,
) -> bool {
    let flags = source_axes::default_flags(to_user, to_design, axes, axis_indices, font);
    &&& source_axes::drops_any(to_user, axes, axis_indices, font.masters@)
    &&& forall|k: int| 0 <= k < flags.len() ==> !#[trigger] flags[k]
}

/// `place` is where a master or an instance with these values may be.
pub open spec fn is_place_of<N: Fn(&Vec<Axis>, &Location) -> Location>(
    normalize: N,
    axes: Vec<Axis>,
    axis_indices: Seq<usize>,
    values: Seq<Real>,
    place: Map<Tag, Real>,
) -> bool {
    exists|design: Location, found: Location|
        design@ == coords::collected(
            toir::picked(
                axes@,
                axis_indices,
                values,
                toir::shorter(axes@.len(), axis_indices.len()),
            ),
        ) && #[trigger] call_ensures(normalize, (&axes, &design), found) && found@ == place
}

/// The values of every master and then of every instance.
pub open spec fn all_values(font: Font) -> Seq<Seq<Real>> {
    font.masters@.map_values(|m: FontMaster| m.axes_values@) + font.instances@.map_values(
        |i: Instance| i.axes_values@,
    )
}

/// Where `locations` puts values, if it does.
pub open spec fn are_places<N: Fn(&Vec<Axis>, &Location) -> Location>(
    normalize: N,
    axes: Vec<Axis>,
    axis_indices: Seq<usize>,
    values: Seq<Seq<Real>>,
    locations: Seq<(Vec<Real>, Location)>,
) -> bool {
    &&& locations.len() == values.len()
    &&& forall|i: int|
        0 <= i < locations.len() ==> (#[trigger] locations[i]).0@ == values[i] && is_place_of(
            normalize,
            axes,
            axis_indices,
            values[i],
            locations[i].1@,
        )
}

fn find_location<N: Fn(&Vec<Axis>, &Location) -> Location>(
    axes: &Vec<Axis>,
    axis_indices: &Vec<usize>,
    values: &Vec<Real>,
    normalize: &N,
) -> (r: (Vec<Real>, Location))
    requires
        forall|design: Location| call_requires(*normalize, (axes, &design)),
    ensures
        r.0@ == values@,
        is_place_of(*normalize, *axes, axis_indices@, values@, r.1@),
{
    let design: Location = toir::source_design_location(axes, axis_indices, values);
    let place: Location = normalize(axes, &design);
    assert(call_ensures(*normalize, (axes, &design), place));
    (lookup::copied(values), place)
}

impl FontInfo {
    /// Do what can be done beforehand to what [`reach_sources`] left of a
    /// source. `normalize` puts a location in design space into normalized
    /// space.
    pub fn new<N: Fn(&Vec<Axis>, &Location) -> Location>(
        font: Font,
        axes: Vec<Axis>,
        axis_indices: &Vec<usize>,
        normalize: &N,
    ) -> (r: FontInfo)
        requires
            has_default(font),
            color_glyphs::all_can_split(font),
            forall|design: Location| call_requires(*normalize, (&axes, &design)),
        ensures
            r.axes == axes,
            r.master_indices@.len() == font.masters@.len(),
            forall|i: int|
                0 <= i < font.masters@.len() ==> (#[trigger] r.master_indices@[i]).0@
                    == font.masters@[i].id@ && r.master_indices@[i].1 == i,
            are_places(*normalize, axes, axis_indices@, all_values(font), r.locations@),
            r.master_positions@.len() == font.masters@.len(),
            forall|i: int|
                0 <= i < font.masters@.len() ==> (#[trigger] r.master_positions@[i]).0@
                    == font.masters@[i].id@ && r.master_positions@[i].1@ == r.locations@[i].1@,
            ({
                let master = font.masters@[font.default_master_idx as int].id@;
                let glyphs = glyphs_source::glyph_views(font.glyphs@);
                let parts = color_glyphs::all_color_parts(glyphs, master);
                &&& r.font == (Font {
                    glyphs: r.font.glyphs,
                    glyph_order: r.font.glyph_order,
                    ..font
                })
                &&& glyphs_source::glyph_views(r.font.glyphs@) == color_glyphs::put_glyphs(
                    glyphs,
                    parts,
                )
                &&& text::texts(r.font.glyph_order@) == text::texts(font.glyph_order@)
                    + color_glyphs::names_of(parts)
                &&& color_glyphs::color_entries(r.color_glyphs)
                    == color_glyphs::all_color_entries(glyphs, master)
            }),
    {
        let ghost values = all_values(font);
        let mut master_indices: Vec<(String, usize)> = Vec::new();
        let mut master_positions: Vec<(String, Location)> = Vec::new();
        let mut locations: Vec<(Vec<Real>, Location)> = Vec::new();
        let mut i: usize = 0;
        while i < font.masters.len()
            invariant
                i <= font.masters@.len(),
                values == all_values(font),
                forall|design: Location| call_requires(*normalize, (&axes, &design)),
                master_indices@.len() == i,
                forall|k: int|
                    0 <= k < i ==> (#[trigger] master_indices@[k]).0@ == font.masters@[k].id@
                        && master_indices@[k].1 == k,
                master_positions@.len() == i,
                locations@.len() == i,
                forall|k: int|
                    0 <= k < i ==> (#[trigger] master_positions@[k]).0@ == font.masters@[k].id@
                        && master_positions@[k].1@ == locations@[k].1@,
                forall|k: int|
                    0 <= k < i ==> (#[trigger] locations@[k]).0@ == values[k] && is_place_of(
                        *normalize,
                        axes,
                        axis_indices@,
                        values[k],
                        locations@[k].1@,
                    ),
            decreases font.masters.len() - i,
        {
            let master: &FontMaster = &font.masters[i];
            assert(values[i as int] == master.axes_values@);
            let found: (Vec<Real>, Location) = find_location(
                &axes,
                axis_indices,
                &master.axes_values,
                normalize,
            );
            master_indices.push((master.id.clone(), i));
            master_positions.push((master.id.clone(), found.1.clone()));
            locations.push(found);
            i = i + 1;
        }
        let ghost count = font.masters@.len();
        let mut n: usize = 0;
        while n < font.instances.len()
            invariant
                n <= font.instances@.len(),
                values == all_values(font),
                count == font.masters@.len(),
                forall|design: Location| call_requires(*normalize, (&axes, &design)),
                locations@.len() == count + n,
                master_positions@.len() == count,
                forall|k: int|
                    0 <= k < count ==> (#[trigger] master_positions@[k]).0@ == font.masters@[k].id@
                        && master_positions@[k].1@ == locations@[k].1@,
                forall|k: int|
                    0 <= k < locations@.len() ==> (#[trigger] locations@[k]).0@ == values[k]
                        && is_place_of(
                        *normalize,
                        axes,
                        axis_indices@,
                        values[k],
                        locations@[k].1@,
                    ),
            decreases font.instances.len() - n,
        {
            assert(values[count + n] == font.instances@[n as int].axes_values@);
            locations.push(
                find_location(&axes, axis_indices, &font.instances[n].axes_values, normalize),
            );
            n = n + 1;
        }
        let (font, color_glyphs): (Font, IndexMap<String, Vec<String>>) =
            color_glyphs::split_color_glyphs(font);
        FontInfo { font, master_indices, master_positions, locations, axes, color_glyphs }
    }
}

/// Where values have been read off, a dropped axis leaves no mark: a location
/// names only axes of the font.
pub proof fn law_locations_are_on_the_axes_of_the_font(
    axes: Seq<Axis>,
    axis_indices: Seq<usize>,
    values: Seq<Real>,
    n: int,
    tag: Tag,
)
    requires
        0 <= n <= axes.len(),
    ensures
        coords::collected(toir::picked(axes, axis_indices, values, n)).contains_key(tag)
            ==> coords::tags_of(axes).contains(tag),
    decreases n,
{
    if n > 0 {
        law_locations_are_on_the_axes_of_the_font(axes, axis_indices, values, n - 1, tag);
        let rest = toir::picked(axes, axis_indices, values, n - 1);
        let all = toir::picked(axes, axis_indices, values, n);
        assert(coords::tags_of(axes)[n - 1] == axes[n - 1].tag);
        if all.len() > rest.len() {
            assert(all.drop_last() =~= rest);
        }
    }
}

/// The values of masters come first, in order, and behind them those of
/// instances, in order.
pub proof fn law_masters_come_before_instances(font: Font, i: int)
    ensures
        all_values(font).len() == font.masters@.len() + font.instances@.len(),
        0 <= i < font.masters@.len() ==> all_values(font)[i] == font.masters@[i].axes_values@,
        0 <= i < font.instances@.len() ==> all_values(font)[font.masters@.len() + i]
            == font.instances@[i].axes_values@,
{
}

/// A source whose masters are all within reach stays as it is, and one that
/// loses a master keeps what has nothing to do with masters.
pub proof fn law_sources_within_reach_stay_as_they_are<
    P: Fn(&Vec<(Real, Real)>, Real) -> Real,
    A: Fn(&Vec<(Real, Real)>, usize) -> Option<String>,
    F: Fn(&CoordConverter, Real) -> Real,
    G: Fn(&CoordConverter, Real) -> Real,
>(
    piecewise: P,
    refuse: A,
    to_user: F,
    to_design: G,
    font: Font,
    all: Seq<Axis>,
    rest: Font,
    axes: Seq<Axis>,
    axis_indices: Seq<usize>,
)
    requires
        sources_become(
            piecewise,
            refuse,
            to_user,
            to_design,
            font,
            all,
            rest,
            axes,
            axis_indices,
        ),
    ensures
        (forall|i: int|
            0 <= i < font.masters@.len() ==> source_axes::is_in_range(
                to_user,
                axes,
                axis_indices,
                (#[trigger] font.masters@[i]).axes_values@,
            )) ==> rest == font,
        rest.axes == font.axes,
        rest.axis_mappings == font.axis_mappings,
        rest.virtual_masters == font.virtual_masters,
        rest.glyph_order == font.glyph_order,
        rest.declares_axes == font.declares_axes,
        rest.glyphs@.len() == font.glyphs@.len(),
{
}

/// A master or an instance is where its values on the axes of the font are, once
/// they are put in normalized space.
pub proof fn law_values_are_placed_on_the_axes_of_the_font<
    N: Fn(&Vec<Axis>, &Location) -> Location,
>(
    normalize: N,
    axes: Vec<Axis>,
    axis_indices: Seq<usize>,
    values: Seq<Seq<Real>>,
    locations: Seq<(Vec<Real>, Location)>,
    i: int,
) -> (r: (Location, Location))
    requires
        are_places(normalize, axes, axis_indices, values, locations),
        0 <= i < values.len(),
    ensures
        locations.len() == values.len(),
        locations[i].0@ == values[i],
        r.0@ == coords::collected(
            toir::picked(
                axes@,
                axis_indices,
                values[i],
                toir::shorter(axes@.len(), axis_indices.len()),
            ),
        ),
        call_ensures(normalize, (&axes, &r.0), r.1),
        r.1@ == locations[i].1@,
{
    assert(locations[i].0@ == values[i]);
    choose|design: Location, found: Location|
        design@ == coords::collected(
            toir::picked(
                axes@,
                axis_indices,
                values[i],
                toir::shorter(axes@.len(), axis_indices.len()),
            ),
        ) && #[trigger] call_ensures(normalize, (&axes, &design), found) && found@
            == locations[i].1@
}

/// A source loses its default only if it loses a master, and none of those left
/// can take over: none is at the default of every axis, or has the id that the
/// default had.
pub proof fn law_a_default_is_lost_only_if_none_can_take_over<
    F: Fn(&CoordConverter, Real) -> Real,
    G: Fn(&CoordConverter, Real) -> Real,
>(
    to_user: F,
    to_design: G,
    axes: Seq<Axis>,
    axis_indices: Seq<usize>,
    font: Font,
    k: int,
)
    requires
        loses_default(to_user, to_design, axes, axis_indices, font),
        0 <= k < source_axes::surviving_masters(to_user, axes, axis_indices, font.masters@).len(),
    ensures
        exists|i: int|
            0 <= i < font.masters@.len() && !source_axes::is_in_range(
                to_user,
                axes,
                axis_indices,
                (#[trigger] font.masters@[i]).axes_values@,
            ),
        ({
            let left = source_axes::surviving_masters(to_user, axes, axis_indices, font.masters@);
            let was = font.masters@[font.default_master_idx as int].id@;
            if source_axes::is_dropped(to_user, axes, axis_indices, font.masters@, was) {
                !source_axes::is_at_default(to_design, axes, axis_indices, left[k].axes_values@)
            } else {
                left[k].id@ != was
            }
        }),
{
    let flags = source_axes::default_flags(to_user, to_design, axes, axis_indices, font);
    assert(!flags[k]);
}

} // verus!
