//! Building a `CFF ` table, but for its encoding.

use crate::cff;
use crate::cff::{PathEl, PrivateDictValues, TopDictValues};
use crate::coords;
use crate::coords::Real;
use crate::error::Error;
use crate::glyph::GlyphInstance;
use crate::numeric;
use crate::post;
use crate::static_metadata::{PostscriptSettings, StaticMetadata};
use crate::text;
use vstd::prelude::*;

verus! {

/// The work that outlines need done with numbers themselves.
#[derive(Debug)]
pub struct OutlineArithmetic<R, F, L, H> {
    /// The nearest whole number.
    pub round: R,
    /// The scale that blues imply.
    pub blue_scale: F,
    /// The next lower whole number.
    pub floor: L,
    /// The next higher whole number.
    pub ceil: H,
}

impl<
    R: Fn(Real) -> i32,
    F: Fn(&Vec<Real>, &Vec<Real>) -> Real,
    L: Fn(Real) -> i32,
    H: Fn(Real) -> i32,
> OutlineArithmetic<R, F, L, H> {
    /// Every part gives one answer.
    pub open spec fn wf(&self) -> bool {
        &&& numeric::is_map(self.round)
        &&& cff::is_blue_scale(self.blue_scale)
        &&& numeric::is_map(self.floor)
        &&& numeric::is_map(self.ceil)
    }
}

/// The smallest box of whole units around some bounds.
pub open spec fn grown<L: Fn(Real) -> i32, H: Fn(Real) -> i32>(
    floor: L,
    ceil: H,
    bounds: Option<[Real; 4]>,
    r: Option<[i32; 4]>,
) -> bool {
    match (bounds, r) {
        (Some(b), Some(r)) => {
            &&& r@[0] == numeric::image(floor, b@[0])
            &&& r@[1] == numeric::image(floor, b@[1])
            &&& r@[2] == numeric::image(ceil, b@[2])
            &&& r@[3] == numeric::image(ceil, b@[3])
        },
        (None, None) => true,
        _ => false,
    }
}

/// The smallest box of whole units around a charstring's exact bounds.
///
/// A glyph whose curve overshoots its points by a fraction of a unit counts as
/// a whole unit wider.
pub fn outer_bounds<L: Fn(Real) -> i32, H: Fn(Real) -> i32>(
    bounds: Option<[Real; 4]>,
    floor: &L,
    ceil: &H,
) -> (r: Option<[i32; 4]>)
    requires
        numeric::is_map(*floor),
        numeric::is_map(*ceil),
    ensures
        grown(*floor, *ceil, bounds, r),
{
    match bounds {
        Some(b) => Some(
            [
                numeric::apply(floor, b[0]),
                numeric::apply(floor, b[1]),
                numeric::apply(ceil, b[2]),
                numeric::apply(ceil, b[3]),
            ],
        ),
        None => None,
    }
}

/// Some bounds with each side rounded.
pub open spec fn rounded_box<R: Fn(Real) -> i32>(
    round: R,
    bounds: Option<[Real; 4]>,
    r: Option<[i32; 4]>,
) -> bool {
    grown(round, round, bounds, r)
}

/// A glyph as it is drawn, and its exact bounds if it draws anything.
#[derive(Debug, PartialEq, Eq)]
pub struct Charstring {
    pub bytes: Vec<u8>,
    pub bounds: Option<[Real; 4]>,
}

/// A glyph of a `CFF ` table.
#[derive(Debug, PartialEq, Eq)]
pub struct GlyphData {
    pub name: String,
    pub advance_width: Real,
    pub charstring: Vec<u8>,
    pub bounds: Option<[Real; 4]>,
}

/// What a `CFF ` table is encoded from, and the bounds of its glyphs.
#[derive(Debug, PartialEq, Eq)]
pub struct CffFont {
    pub postscript_name: String,
    pub top_dict: TopDictValues,
    pub private: PrivateDictValues,
    /// In glyph order.
    pub glyphs: Vec<GlyphData>,
    /// Rounded; an all-zero box is no box.
    pub glyph_bounds: Vec<Option<[i32; 4]>>,
    /// Grown to whole units.
    pub glyph_outer_bounds: Vec<Option<[i32; 4]>>,
}

/// `made` may come of drawing a glyph.
pub open spec fn draws_as<D: Fn(&Vec<Vec<PathEl>>) -> Result<Charstring, String>>(
    draw: D,
    glyph_name: Seq<char>,
    instance: GlyphInstance,
    made_up: bool,
    made: Result<Charstring, String>,
) -> bool {
    &&& instance.components@.len() == 0
    &&& exists|contours: Vec<Vec<PathEl>>|
        cff::elements(contours@) == cff::drawn_contours(
            glyph_name,
            cff::elements(instance.contours@),
            made_up,
        ) && #[trigger] call_ensures(draw, (&contours,), made)
}

/// A glyph may become `data`, with these bounds.
pub open spec fn glyph_becomes<
    R: Fn(Real) -> i32,
    F: Fn(&Vec<Real>, &Vec<Real>) -> Real,
    L: Fn(Real) -> i32,
    H: Fn(Real) -> i32,
    D: Fn(&Vec<Vec<PathEl>>) -> Result<Charstring, String>,
>(
    with: OutlineArithmetic<R, F, L, H>,
    draw: D,
    glyph_name: Seq<char>,
    final_name: Seq<char>,
    instance: GlyphInstance,
    made_up: bool,
    data: GlyphData,
    bounds: Option<[i32; 4]>,
    outer: Option<[i32; 4]>,
) -> bool {
    &&& data.name@ == final_name
    &&& data.advance_width == instance.width
    &&& draws_as(
        draw,
        glyph_name,
        instance,
        made_up,
        Ok(Charstring { bytes: data.charstring, bounds: data.bounds }),
    )
    &&& exists|rounded: Option<[i32; 4]>| #[trigger]
        rounded_box(with.round, data.bounds, rounded) && bounds == cff::recorded(rounded)
    &&& grown(with.floor, with.ceil, data.bounds, outer)
}

/// `e` may be why a glyph cannot be drawn.
pub open spec fn glyph_fails_with<D: Fn(&Vec<Vec<PathEl>>) -> Result<Charstring, String>>(
    draw: D,
    glyph_name: String,
    instance: GlyphInstance,
    made_up: bool,
    e: Error,
) -> bool {
    if instance.components@.len() > 0 {
        e == Error::CffGlyphHasComponents(glyph_name)
    } else {
        e matches Error::Charstring(why) && draws_as(
            draw,
            glyph_name@,
            instance,
            made_up,
            Err(why),
        )
    }
}

/// `private` is the Private DICT of the default master.
pub open spec fn is_default_private<R: Fn(Real) -> i32, F: Fn(&Vec<Real>, &Vec<Real>) -> Real>(
    round: R,
    blue_scale: F,
    static_metadata: StaticMetadata,
    private: PrivateDictValues,
) -> bool {
    exists|ps: PostscriptSettings| #[trigger]
        cff::is_private_dict_of(round, blue_scale, ps, private) && match coords::placed(
            static_metadata.postscript@,
            static_metadata.home(),
        ) {
            Some(i) => ps.same_as(&static_metadata.postscript@[i].1),
            None => ps.says_nothing(),
        }
}

/// The names of the glyphs in the font.
pub open spec fn names_in_font(static_metadata: StaticMetadata, glyph_order: Seq<String>) -> Seq<
    Seq<char>,
> {
    post::final_names(
        text::texts(glyph_order),
        match static_metadata.postscript_names {
            Some(rename) => Some(rename@),
            None => None,
        },
    )
}

/// `font` may come of a static font.
pub open spec fn builds_to<
    R: Fn(Real) -> i32,
    F: Fn(&Vec<Real>, &Vec<Real>) -> Real,
    L: Fn(Real) -> i32,
    H: Fn(Real) -> i32,
    D: Fn(&Vec<Vec<PathEl>>) -> Result<Charstring, String>,
>(
    with: OutlineArithmetic<R, F, L, H>,
    draw: D,
    static_metadata: StaticMetadata,
    underline: (Real, Real),
    glyph_order: Seq<String>,
    instances: Seq<GlyphInstance>,
    made_up: bool,
    font: CffFont,
) -> bool {
    &&& static_metadata.axes@.len() == 0
    &&& cff::is_top_dict_of(
        static_metadata,
        numeric::image(with.round, underline.0),
        numeric::image(with.round, underline.1),
        font.postscript_name@,
        font.top_dict,
    )
    &&& is_default_private(with.round, with.blue_scale, static_metadata, font.private)
    &&& font.glyphs@.len() == glyph_order.len()
    &&& font.glyph_bounds@.len() == glyph_order.len()
    &&& font.glyph_outer_bounds@.len() == glyph_order.len()
    &&& forall|i: int|
        0 <= i < glyph_order.len() ==> glyph_becomes(
            with,
            draw,
            glyph_order[i]@,
            names_in_font(static_metadata, glyph_order)[i],
            instances[i],
            made_up,
            #[trigger] font.glyphs@[i],
            font.glyph_bounds@[i],
            font.glyph_outer_bounds@[i],
        )
}

/// Glyph `i` may be the first that cannot be drawn, for the reason `e`.
pub open spec fn stops_at<D: Fn(&Vec<Vec<PathEl>>) -> Result<Charstring, String>>(
    draw: D,
    glyph_order: Seq<String>,
    instances: Seq<GlyphInstance>,
    made_up: bool,
    i: int,
    e: Error,
) -> bool {
    &&& 0 <= i < glyph_order.len()
    &&& glyph_fails_with(draw, glyph_order[i], instances[i], made_up, e)
    &&& forall|k: int|
        0 <= k < i ==> can_be_drawn(draw, glyph_order[k]@, #[trigger] instances[k], made_up)
}

/// A glyph may be drawn.
pub open spec fn can_be_drawn<D: Fn(&Vec<Vec<PathEl>>) -> Result<Charstring, String>>(
    draw: D,
    glyph_name: Seq<char>,
    instance: GlyphInstance,
    made_up: bool,
) -> bool {
    exists|made: Charstring| #[trigger] draws_as(draw, glyph_name, instance, made_up, Ok(made))
}

/// What a `CFF ` table is encoded from. Only a static font has one.
///
/// `instances` holds each glyph of `glyph_order` as it is at the default
/// location, and `preliminary_order` the glyphs of the source. `draw` makes a
/// charstring of some contours.
pub fn build_cff<
    R: Fn(Real) -> i32,
    F: Fn(&Vec<Real>, &Vec<Real>) -> Real,
    L: Fn(Real) -> i32,
    H: Fn(Real) -> i32,
    D: Fn(&Vec<Vec<PathEl>>) -> Result<Charstring, String>,
>(
    static_metadata: &StaticMetadata,
    underline: (Real, Real),
    glyph_order: &Vec<String>,
    instances: &Vec<GlyphInstance>,
    preliminary_order: &Vec<String>,
    with: &OutlineArithmetic<R, F, L, H>,
    draw: &D,
) -> (r: Result<CffFont, Error>)
    requires
        instances@.len() == glyph_order@.len(),
        with.wf(),
        forall|contours: Vec<Vec<PathEl>>| call_requires(*draw, (&contours,)),
    ensures
        match r {
            Ok(font) => builds_to(
                *with,
                *draw,
                *static_metadata,
                underline,
                glyph_order@,
                instances@,
                cff::is_notdef_made_up(preliminary_order@),
                font,
            ),
            Err(e) => if static_metadata.axes@.len() > 0 {
                e == Error::CffNotStatic
            } else {
                exists|i: int|
                    stops_at(
                        *draw,
                        glyph_order@,
                        instances@,
                        cff::is_notdef_made_up(preliminary_order@),
                        i,
                        e,
                    )
            },
        },
{
    let (postscript_name, top_dict): (String, TopDictValues) = match cff::top_dict_values(
        static_metadata,
        numeric::apply(&with.round, underline.0),
        numeric::apply(&with.round, underline.1),
    ) {
        Ok(found) => found,
        Err(e) => {
            return Err(e);
        },
    };
    let settings: PostscriptSettings = static_metadata.postscript_default();
    let private: PrivateDictValues = cff::private_dict_values(
        &settings,
        &with.round,
        &with.blue_scale,
    );
    assert(is_default_private(with.round, with.blue_scale, *static_metadata, private));
    let rename: Option<&Vec<(String, String)>> = match &static_metadata.postscript_names {
        Some(rename) => Some(rename),
        None => None,
    };
    let names: Vec<String> = post::final_glyph_names(glyph_order, rename);
    let made_up: bool = cff::notdef_is_made_up(preliminary_order);
    let ghost all = names_in_font(*static_metadata, glyph_order@);
    proof {
        if let Some(rename) = rename {
            post::law_final_names_are_unique(text::texts(glyph_order@), rename@);
        }
        assert(text::texts(names@).len() == names@.len());
        assert(text::texts(glyph_order@).len() == glyph_order@.len());
    }
    let mut glyphs: Vec<GlyphData> = Vec::new();
    let mut glyph_bounds: Vec<Option<[i32; 4]>> = Vec::new();
    let mut glyph_outer_bounds: Vec<Option<[i32; 4]>> = Vec::new();
    let mut i: usize = 0;
    while i < glyph_order.len()
        invariant
            i <= glyph_order@.len(),
            static_metadata.axes@.len() == 0,
            instances@.len() == glyph_order@.len(),
            names@.len() == glyph_order@.len(),
            all == text::texts(names@),
            made_up == cff::is_notdef_made_up(preliminary_order@),
            with.wf(),
            forall|contours: Vec<Vec<PathEl>>| call_requires(*draw, (&contours,)),
            glyphs@.len() == i,
            glyph_bounds@.len() == i,
            glyph_outer_bounds@.len() == i,
            forall|k: int|
                0 <= k < i ==> glyph_becomes(
                    *with,
                    *draw,
                    glyph_order@[k]@,
                    all[k],
                    instances@[k],
                    made_up,
                    #[trigger] glyphs@[k],
                    glyph_bounds@[k],
                    glyph_outer_bounds@[k],
                ),
            forall|k: int|
                0 <= k < i ==> can_be_drawn(
                    *draw,
                    glyph_order@[k]@,
                    #[trigger] instances@[k],
                    made_up,
                ),
        decreases glyph_order.len() - i,
    {
        let instance: &GlyphInstance = &instances[i];
        let contours: Vec<Vec<PathEl>> = match cff::contours_to_draw(
            &glyph_order[i],
            instance.components.len(),
            &instance.contours,
            made_up,
        ) {
            Ok(contours) => contours,
            Err(e) => {
                assert(stops_at(*draw, glyph_order@, instances@, made_up, i as int, e));
                return Err(e);
            },
        };
        let made: Result<Charstring, String> = draw(&contours);
        assert(draws_as(*draw, glyph_order@[i as int]@, *instance, made_up, made));
        match made {
            Ok(made) => {
                assert(draws_as(*draw, glyph_order@[i as int]@, *instance, made_up, Ok(made)));
                let rounded: Option<[i32; 4]> = outer_bounds(
                    made.bounds,
                    &with.round,
                    &with.round,
                );
                assert(rounded_box(with.round, made.bounds, rounded));
                assert(all[i as int] == names@[i as int]@);
                glyph_bounds.push(cff::recorded_bounds(rounded));
                glyph_outer_bounds.push(outer_bounds(made.bounds, &with.floor, &with.ceil));
                glyphs.push(
                    GlyphData {
                        name: names[i].clone(),
                        advance_width: instance.width,
                        charstring: made.bytes,
                        bounds: made.bounds,
                    },
                );
            },
            Err(why) => {
                let e = Error::Charstring(why);
                assert(stops_at(*draw, glyph_order@, instances@, made_up, i as int, e));
                return Err(e);
            },
        }
        i = i + 1;
    }
    Ok(CffFont { postscript_name, top_dict, private, glyphs, glyph_bounds, glyph_outer_bounds })
}

/// A box grows outwards to whole units: down on its left and lower sides, up on
/// its right and upper sides. Only a glyph that draws nothing has none.
pub proof fn law_boxes_grow_outwards<L: Fn(Real) -> i32, H: Fn(Real) -> i32>(
    floor: L,
    ceil: H,
    bounds: Option<[Real; 4]>,
    r: Option<[i32; 4]>,
)
    requires
        grown(floor, ceil, bounds, r),
    ensures
        r is Some <==> bounds is Some,
        bounds matches Some(b) ==> r->0@[0] == numeric::image(floor, b@[0]) && r->0@[1]
            == numeric::image(floor, b@[1]) && r->0@[2] == numeric::image(ceil, b@[2]) && r->0@[3]
            == numeric::image(ceil, b@[3]),
{
}

/// Each glyph of a table has its name in the font, its own width and no
/// components. Its bounds are those of its charstring: rounded, unless they
/// round to nothing but zeros, and grown to whole units.
pub proof fn law_glyphs_are_in_glyph_order<
    R: Fn(Real) -> i32,
    F: Fn(&Vec<Real>, &Vec<Real>) -> Real,
    L: Fn(Real) -> i32,
    H: Fn(Real) -> i32,
    D: Fn(&Vec<Vec<PathEl>>) -> Result<Charstring, String>,
>(
    with: OutlineArithmetic<R, F, L, H>,
    draw: D,
    static_metadata: StaticMetadata,
    underline: (Real, Real),
    glyph_order: Seq<String>,
    instances: Seq<GlyphInstance>,
    made_up: bool,
    font: CffFont,
    i: int,
)
    requires
        builds_to(
            with,
            draw,
            static_metadata,
            underline,
            glyph_order,
            instances,
            made_up,
            font,
        ),
        0 <= i < glyph_order.len(),
    ensures
        static_metadata.axes@.len() == 0,
        font.glyphs@.len() == glyph_order.len(),
        font.glyph_bounds@.len() == glyph_order.len(),
        font.glyph_outer_bounds@.len() == glyph_order.len(),
        static_metadata.postscript_names is None ==> font.glyphs@[i].name@ == glyph_order[i]@,
        static_metadata.postscript_names matches Some(rename) ==> font.glyphs@[i].name@
            == post::final_names(text::texts(glyph_order), Some(rename@))[i],
        font.glyphs@[i].advance_width == instances[i].width,
        instances[i].components@.len() == 0,
        font.glyphs@[i].bounds is None ==> font.glyph_bounds@[i] is None
            && font.glyph_outer_bounds@[i] is None,
        font.glyphs@[i].bounds matches Some(b) ==> {
            let zero = numeric::image(with.round, b@[0]) == 0 && numeric::image(with.round, b@[1])
                == 0 && numeric::image(with.round, b@[2]) == 0 && numeric::image(with.round, b@[3])
                == 0;
            &&& font.glyph_bounds@[i] is None <==> zero
            &&& !zero ==> font.glyph_bounds@[i]->0@[0] == numeric::image(with.round, b@[0])
                && font.glyph_bounds@[i]->0@[1] == numeric::image(with.round, b@[1])
                && font.glyph_bounds@[i]->0@[2] == numeric::image(with.round, b@[2])
                && font.glyph_bounds@[i]->0@[3] == numeric::image(with.round, b@[3])
            &&& font.glyph_outer_bounds@[i] is Some
            &&& font.glyph_outer_bounds@[i]->0@[0] == numeric::image(with.floor, b@[0])
            &&& font.glyph_outer_bounds@[i]->0@[1] == numeric::image(with.floor, b@[1])
            &&& font.glyph_outer_bounds@[i]->0@[2] == numeric::image(with.ceil, b@[2])
            &&& font.glyph_outer_bounds@[i]->0@[3] == numeric::image(with.ceil, b@[3])
        },
{
    assert(glyph_becomes(
        with,
        draw,
        glyph_order[i]@,
        names_in_font(static_metadata, glyph_order)[i],
        instances[i],
        made_up,
        font.glyphs@[i],
        font.glyph_bounds@[i],
        font.glyph_outer_bounds@[i],
    ));
    let rounded = choose|rounded: Option<[i32; 4]>| #[trigger]
        rounded_box(with.round, font.glyphs@[i].bounds, rounded) && font.glyph_bounds@[i]
            == cff::recorded(rounded);
    assert(rounded_box(with.round, font.glyphs@[i].bounds, rounded));
    assert(text::texts(glyph_order).len() == glyph_order.len());
    assert(text::texts(glyph_order)[i] == glyph_order[i]@);
}

/// A glyph is drawn from its own contours, without the lines that close them
/// anyway. Only a `.notdef` that was made up keeps those.
pub proof fn law_glyphs_are_drawn_from_their_contours<
    D: Fn(&Vec<Vec<PathEl>>) -> Result<Charstring, String>,
>(
    draw: D,
    glyph_name: Seq<char>,
    instance: GlyphInstance,
    made_up: bool,
    made: Result<Charstring, String>,
) -> (contours: Vec<Vec<PathEl>>)
    requires
        draws_as(draw, glyph_name, instance, made_up, made),
    ensures
        call_ensures(draw, (&contours,), made),
        contours@.len() == instance.contours@.len(),
        forall|i: int|
            0 <= i < contours@.len() ==> (#[trigger] contours@[i])@ == if made_up && glyph_name
                == ".notdef"@ {
                instance.contours@[i]@
            } else {
                cff::without_closing_lines(
                    instance.contours@[i]@,
                    instance.contours@[i]@.len() as int,
                )
            },
{
    let contours = choose|contours: Vec<Vec<PathEl>>|
        cff::elements(contours@) == cff::drawn_contours(
            glyph_name,
            cff::elements(instance.contours@),
            made_up,
        ) && #[trigger] call_ensures(draw, (&contours,), made);
    let drawn = cff::elements(contours@);
    let whole = cff::elements(instance.contours@);
    assert(drawn.len() == contours@.len());
    assert(whole.len() == instance.contours@.len());
    assert forall|i: int| 0 <= i < contours@.len() implies (#[trigger] contours@[i])@ == if made_up
        && glyph_name == ".notdef"@ {
        instance.contours@[i]@
    } else {
        cff::without_closing_lines(instance.contours@[i]@, instance.contours@[i]@.len() as int)
    } by {
        assert(drawn[i] == contours@[i]@);
        assert(whole[i] == instance.contours@[i]@);
    }
    contours
}

/// Drawing stops at the first glyph that has components, which is named, or
/// that cannot be drawn, with the reason for that.
pub proof fn law_drawing_stops_at_the_first_bad_glyph<
    D: Fn(&Vec<Vec<PathEl>>) -> Result<Charstring, String>,
>(
    draw: D,
    glyph_order: Seq<String>,
    instances: Seq<GlyphInstance>,
    made_up: bool,
    i: int,
    e: Error,
    k: int,
)
    requires
        stops_at(draw, glyph_order, instances, made_up, i, e),
        0 <= k < i,
    ensures
        i < glyph_order.len(),
        instances[k].components@.len() == 0,
        instances[i].components@.len() > 0 ==> e == Error::CffGlyphHasComponents(glyph_order[i]),
        instances[i].components@.len() == 0 ==> e is Charstring,
{
    assert(can_be_drawn(draw, glyph_order[k]@, instances[k], made_up));
}

/// The Private DICT is that of the first settings for the default location, or
/// of settings that say nothing if there are none for it.
pub proof fn law_the_private_dict_is_the_default_masters<
    R: Fn(Real) -> i32,
    F: Fn(&Vec<Real>, &Vec<Real>) -> Real,
>(
    round: R,
    blue_scale: F,
    static_metadata: StaticMetadata,
    private: PrivateDictValues,
    i: int,
) -> (ps: PostscriptSettings)
    requires
        is_default_private(round, blue_scale, static_metadata, private),
    ensures
        cff::is_private_dict_of(round, blue_scale, ps, private),
        (forall|k: int| 0 <= k < static_metadata.postscript@.len() ==> (
        #[trigger] static_metadata.postscript@[k]).0@ != static_metadata.home())
            ==> ps.says_nothing(),
        0 <= i < static_metadata.postscript@.len() && static_metadata.postscript@[i].0@
            == static_metadata.home() && (forall|k: int|
            0 <= k < i ==> (#[trigger] static_metadata.postscript@[k]).0@
                != static_metadata.home()) ==> ps.same_as(&static_metadata.postscript@[i].1),
{
    coords::lemma_placed(static_metadata.postscript@, static_metadata.home());
    choose|ps: PostscriptSettings| #[trigger]
        cff::is_private_dict_of(round, blue_scale, ps, private) && match coords::placed(
            static_metadata.postscript@,
            static_metadata.home(),
        ) {
            Some(i) => ps.same_as(&static_metadata.postscript@[i].1),
            None => ps.says_nothing(),
        }
}

} // verus!
