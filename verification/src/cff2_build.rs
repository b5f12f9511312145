//! Building a `CFF2` table, but for its encoding.

use crate::cff;
use crate::cff::{PathEl, PrivateDictValues};
use crate::cff2;
use crate::cff2::{
    Cff2Build, Cff2PrivateDictValues, GlyphJob, Number, PlanState, Tent, VarStorePlan,
    VariationRegion, DEFAULT_BLUE_SCALE,
};
use crate::cff_build;
use crate::cff_build::{Charstring, OutlineArithmetic};
use crate::coords;
use crate::coords::{Location, Real, Tag};
use crate::error::{Error, GlyphProblem};
use crate::lookup;
use crate::numeric;
use crate::static_metadata::{PostscriptSettings, StaticMetadata};
use vstd::prelude::*;

verus! {

/// The work that variation models do.
#[derive(Debug)]
pub struct ModelArithmetic<O, G, M, B, C> {
    /// Some locations in the order of the model over them.
    pub order: O,
    /// The regions of the model over some locations, the default's first.
    pub regions: G,
    /// The deltas of values at some locations.
    pub deltas: M,
    /// A real number as it reads back from a DICT.
    pub read_back: B,
    /// A real number as it stands in a DICT.
    pub number: C,
}

/// `r` may be the order that `f` puts these places in.
pub open spec fn orders_to<O: Fn(&Vec<Location>) -> Vec<Location>>(
    f: O,
    places: Seq<Map<Tag, Real>>,
    r: Seq<Map<Tag, Real>>,
) -> bool {
    exists|v: Vec<Location>, o: Vec<Location>|
        coords::places(v@) == places && coords::places(o@) == r && #[trigger] call_ensures(
            f,
            (&v,),
            o,
        )
}

/// `f` gives one order for all places, and neither loses nor adds any.
pub open spec fn is_order<O: Fn(&Vec<Location>) -> Vec<Location>>(f: O) -> bool {
    &&& forall|v: Vec<Location>| call_requires(f, (&v,))
    &&& forall|places: Seq<Map<Tag, Real>>, a: Seq<Map<Tag, Real>>, b: Seq<Map<Tag, Real>>|
        #[trigger] orders_to(f, places, a) && #[trigger] orders_to(f, places, b) ==> a == b
    &&& forall|places: Seq<Map<Tag, Real>>, a: Seq<Map<Tag, Real>>| #[trigger]
        orders_to(f, places, a) ==> a.to_multiset() == places.to_multiset()
}

/// The order that `f` puts these places in.
pub open spec fn order_of<O: Fn(&Vec<Location>) -> Vec<Location>>(
    f: O,
    places: Seq<Map<Tag, Real>>,
) -> Seq<Map<Tag, Real>> {
    choose|r: Seq<Map<Tag, Real>>| orders_to(f, places, r)
}

fn ordered<O: Fn(&Vec<Location>) -> Vec<Location>>(f: &O, list: &Vec<Location>) -> (r: Vec<
    Location,
>)
    requires
        is_order(*f),
    ensures
        coords::places(r@) == order_of(*f, coords::places(list@)),
        coords::places(r@).to_multiset() == coords::places(list@).to_multiset(),
{
    let r: Vec<Location> = f(list);
    assert(orders_to(*f, coords::places(list@), coords::places(r@)));
    r
}

/// `r` may be the regions of the model over these places.
pub open spec fn spans_to<G: Fn(&Vec<Location>) -> Vec<VariationRegion>>(
    f: G,
    places: Seq<Map<Tag, Real>>,
    r: Seq<Seq<(Tag, Tent)>>,
) -> bool {
    exists|v: Vec<Location>, o: Vec<VariationRegion>|
        coords::places(v@) == places && cff2::tents_of(o@) == r && #[trigger] call_ensures(
            f,
            (&v,),
            o,
        )
}

/// `f` gives one answer for all places.
pub open spec fn is_span<G: Fn(&Vec<Location>) -> Vec<VariationRegion>>(f: G) -> bool {
    &&& forall|v: Vec<Location>| call_requires(f, (&v,))
    &&& forall|places: Seq<Map<Tag, Real>>, a: Seq<Seq<(Tag, Tent)>>, b: Seq<Seq<(Tag, Tent)>>|
        #[trigger] spans_to(f, places, a) && #[trigger] spans_to(f, places, b) ==> a == b
}

/// The regions of the model over these places.
pub open spec fn regions_of<G: Fn(&Vec<Location>) -> Vec<VariationRegion>>(
    f: G,
    places: Seq<Map<Tag, Real>>,
) -> Seq<Seq<(Tag, Tent)>> {
    choose|r: Seq<Seq<(Tag, Tent)>>| spans_to(f, places, r)
}

fn regions_over<G: Fn(&Vec<Location>) -> Vec<VariationRegion>>(f: &G, list: &Vec<Location>) -> (r:
    Vec<VariationRegion>)
    requires
        is_span(*f),
    ensures
        cff2::tents_of(r@) == regions_of(*f, coords::places(list@)),
{
    let r: Vec<VariationRegion> = f(list);
    assert(spans_to(*f, coords::places(list@), cff2::tents_of(r@)));
    r
}

impl<
    O: Fn(&Vec<Location>) -> Vec<Location>,
    G: Fn(&Vec<Location>) -> Vec<VariationRegion>,
    M: Fn(&Vec<Location>, &Vec<Number>) -> Vec<Number>,
    B: Fn(Real) -> Real,
    C: Fn(Real) -> Number,
> ModelArithmetic<O, G, M, B, C> {
    /// Every part gives one answer.
    pub open spec fn wf(&self) -> bool {
        &&& is_order(self.order)
        &&& is_span(self.regions)
        &&& cff2::is_model(self.deltas)
        &&& numeric::is_map(self.read_back)
        &&& numeric::is_map(self.number)
    }
}

/// Where the masters that take part are, in the order of the model over them.
pub open spec fn sub_places<O: Fn(&Vec<Location>) -> Vec<Location>>(
    order: O,
    masters: Seq<Location>,
    mask: Seq<bool>,
) -> Seq<Map<Tag, Real>> {
    if forall|i: int| 0 <= i < mask.len() ==> #[trigger] mask[i] {
        coords::places(masters)
    } else {
        order_of(order, cff2::picked(masters, mask))
    }
}

fn all_take_part(mask: &Vec<bool>) -> (r: bool)
    ensures
        r == forall|i: int| 0 <= i < mask@.len() ==> #[trigger] mask@[i],
{
    let mut i: usize = 0;
    while i < mask.len()
        invariant
            i <= mask@.len(),
            forall|k: int| 0 <= k < i ==> #[trigger] mask@[k],
        decreases mask.len() - i,
    {
        if !mask[i] {
            return false;
        }
        i = i + 1;
    }
    true
}

fn copy_places(list: &Vec<Location>) -> (r: Vec<Location>)
    ensures
        coords::places(r@) == coords::places(list@),
{
    let mut r: Vec<Location> = Vec::new();
    let mut i: usize = 0;
    while i < list.len()
        invariant
            i <= list@.len(),
            coords::places(r@) =~= coords::places(list@).take(i as int),
        decreases list.len() - i,
    {
        let ghost before = r@;
        r.push(list[i].clone());
        assert(coords::places(r@) =~= coords::places(before).push(list@[i as int]@));
        i = i + 1;
    }
    assert(coords::places(r@) =~= coords::places(list@));
    r
}

/// Where the masters that take part are, in the order of the model over them: a
/// glyph that every master draws has the font's own model.
pub fn sub_model<O: Fn(&Vec<Location>) -> Vec<Location>>(
    masters: &Vec<Location>,
    mask: &Vec<bool>,
    order: &O,
) -> (r: Vec<Location>)
    requires
        mask@.len() == masters@.len(),
        is_order(*order),
    ensures
        coords::places(r@) == sub_places(*order, masters@, mask@),
        coords::places(r@).to_multiset() == cff2::picked(masters@, mask@).to_multiset(),
{
    if all_take_part(mask) {
        proof {
            lemma_all_picked(masters@, mask@);
        }
        copy_places(masters)
    } else {
        ordered(order, &cff2::sub_model_locations(masters, mask))
    }
}

proof fn lemma_all_picked(masters: Seq<Location>, mask: Seq<bool>)
    requires
        mask.len() >= masters.len(),
        forall|i: int| 0 <= i < mask.len() ==> #[trigger] mask[i],
    ensures
        cff2::picked(masters, mask) == coords::places(masters),
    decreases masters.len(),
{
    if masters.len() > 0 {
        lemma_all_picked(masters.drop_last(), mask);
        assert(mask[masters.len() - 1]);
        assert(coords::places(masters) =~= coords::places(masters.drop_last()).push(
            masters.last()@,
        ));
    } else {
        assert(cff2::picked(masters, mask) =~= coords::places(masters));
    }
}

/// What is picked is where a master is that takes part.
proof fn lemma_picked(masters: Seq<Location>, mask: Seq<bool>, at: Map<Tag, Real>)
    requires
        mask.len() >= masters.len(),
    ensures
        cff2::picked(masters, mask).contains(at) <==> exists|k: int|
            0 <= k < masters.len() && mask[k] && (#[trigger] masters[k])@ == at,
    decreases masters.len(),
{
    if masters.len() > 0 {
        let rest = masters.drop_last();
        lemma_picked(rest, mask, at);
        let before = cff2::picked(rest, mask);
        let all = cff2::picked(masters, mask);
        if before.contains(at) {
            let i = choose|i: int| 0 <= i < before.len() && before[i] == at;
            assert(all[i] == at);
            let k = choose|k: int| 0 <= k < rest.len() && mask[k] && (#[trigger] rest[k])@ == at;
            assert(masters[k] == rest[k]);
        }
        if mask[masters.len() - 1] && masters.last()@ == at {
            assert(all[before.len() as int] == at);
            assert(masters[masters.len() - 1]@ == at);
        }
        if all.contains(at) && !before.contains(at) {
            let i = choose|i: int| 0 <= i < all.len() && all[i] == at;
            if i < before.len() {
                assert(before[i] == at);
            }
            assert(masters[masters.len() - 1]@ == at);
        }
        if exists|k: int| 0 <= k < masters.len() && mask[k] && (#[trigger] masters[k])@ == at {
            let k = choose|k: int|
                0 <= k < masters.len() && mask[k] && (#[trigger] masters[k])@ == at;
            if k < rest.len() {
                assert(rest[k]@ == at);
            }
        }
    }
}

/// `private` may be the Private DICT of a master at `at`.
pub open spec fn is_private_at<R: Fn(Real) -> i32, F: Fn(&Vec<Real>, &Vec<Real>) -> Real>(
    round: R,
    blue_scale: F,
    static_metadata: StaticMetadata,
    at: Map<Tag, Real>,
    private: PrivateDictValues,
) -> bool {
    exists|ps: PostscriptSettings| #[trigger]
        cff::is_private_dict_of(round, blue_scale, ps, private) && cff2::settings_at(
            static_metadata,
            at,
            ps,
        )
}

/// `masters` may be the Private DICTs of the masters at `places`.
pub open spec fn are_privates<R: Fn(Real) -> i32, F: Fn(&Vec<Real>, &Vec<Real>) -> Real>(
    round: R,
    blue_scale: F,
    static_metadata: StaticMetadata,
    places: Seq<Map<Tag, Real>>,
    masters: Seq<PrivateDictValues>,
) -> bool {
    &&& masters.len() == places.len()
    &&& forall|i: int|
        0 <= i < masters.len() ==> is_private_at(
            round,
            blue_scale,
            static_metadata,
            places[i],
            #[trigger] masters[i],
        )
}

/// The default master's `BlueScale`, as it reads back.
pub open spec fn default_scale<B: Fn(Real) -> Real>(
    read_back: B,
    masters: Seq<PrivateDictValues>,
) -> Real {
    numeric::image(read_back, cff::or_else(masters[0].blue_scale, DEFAULT_BLUE_SCALE))
}

/// `r` may be the blended Private DICT of the masters at `places`.
pub open spec fn privates_blend_to<
    R: Fn(Real) -> i32,
    F: Fn(&Vec<Real>, &Vec<Real>) -> Real,
    M: Fn(&Vec<Location>, &Vec<Number>) -> Vec<Number>,
    B: Fn(Real) -> Real,
    C: Fn(Real) -> Number,
>(
    round: R,
    blue_scale: F,
    deltas: M,
    read_back: B,
    number: C,
    static_metadata: StaticMetadata,
    places: Seq<Map<Tag, Real>>,
    r: Cff2PrivateDictValues,
) -> bool {
    exists|masters: Seq<PrivateDictValues>| #[trigger]
        are_privates(round, blue_scale, static_metadata, places, masters)
            && cff2::private_blends_to(
            deltas,
            places,
            number,
            masters,
            default_scale(read_back, masters),
            r,
        )
}

/// The blended Private DICT of the masters at `places`, the default one first.
///
/// Only what the default master's DICT holds is blended at all, and it holds a
/// number with a CFF default only if that is not what it is. The default
/// master's `BlueScale` has been through the CFF encoding and back.
pub fn private_dict<
    R: Fn(Real) -> i32,
    F: Fn(&Vec<Real>, &Vec<Real>) -> Real,
    L: Fn(Real) -> i32,
    H: Fn(Real) -> i32,
    O: Fn(&Vec<Location>) -> Vec<Location>,
    G: Fn(&Vec<Location>) -> Vec<VariationRegion>,
    M: Fn(&Vec<Location>, &Vec<Number>) -> Vec<Number>,
    B: Fn(Real) -> Real,
    C: Fn(Real) -> Number,
>(
    static_metadata: &StaticMetadata,
    places: &Vec<Location>,
    with: &OutlineArithmetic<R, F, L, H>,
    model: &ModelArithmetic<O, G, M, B, C>,
) -> (r: Cff2PrivateDictValues)
    requires
        places@.len() > 0,
        with.wf(),
        model.wf(),
    ensures
        privates_blend_to(
            with.round,
            with.blue_scale,
            model.deltas,
            model.read_back,
            model.number,
            *static_metadata,
            coords::places(places@),
            r,
        ),
{
    let settings: Vec<PostscriptSettings> = cff2::blending_settings(static_metadata, places);
    let mut masters: Vec<PrivateDictValues> = Vec::new();
    let mut i: usize = 0;
    while i < settings.len()
        invariant
            i <= settings@.len(),
            settings@.len() == places@.len(),
            with.wf(),
            forall|k: int|
                0 <= k < settings@.len() ==> cff2::settings_at(
                    *static_metadata,
                    places@[k]@,
                    #[trigger] settings@[k],
                ),
            masters@.len() == i,
            forall|k: int|
                0 <= k < i ==> is_private_at(
                    with.round,
                    with.blue_scale,
                    *static_metadata,
                    coords::places(places@)[k],
                    #[trigger] masters@[k],
                ),
        decreases settings.len() - i,
    {
        let private: PrivateDictValues = cff::private_dict_values(
            &settings[i],
            &with.round,
            &with.blue_scale,
        );
        assert(cff2::settings_at(*static_metadata, places@[i as int]@, settings@[i as int]));
        assert(is_private_at(
            with.round,
            with.blue_scale,
            *static_metadata,
            coords::places(places@)[i as int],
            private,
        ));
        masters.push(private);
        i = i + 1;
    }
    let scale: Real = masters[0].blue_scale.unwrap_or(DEFAULT_BLUE_SCALE);
    let read_back: Real = numeric::apply(&model.read_back, scale);
    assert(are_privates(
        with.round,
        with.blue_scale,
        *static_metadata,
        coords::places(places@),
        masters@,
    ));
    cff2::blend_private(&masters, read_back, &model.number, places, &model.deltas)
}

/// A glyph and its outlines by location.
#[derive(Debug)]
pub struct DrawnGlyph {
    pub name: String,
    pub outlines: Vec<(Location, Vec<PathEl>)>,
}

/// A glyph as all of its masters draw it.
#[derive(Debug, PartialEq, Eq)]
pub struct BlendedCharstring {
    pub bytes: Vec<u8>,
    /// The exact bounds in the default master, if it draws anything.
    pub bounds: Option<[Real; 4]>,
    /// Whether anything in it varies.
    pub blends: bool,
    /// Whether it draws anything at all.
    pub marking: bool,
}

/// What draws charstrings.
#[derive(Debug)]
pub struct Cff2Pen<D, V> {
    /// Draw the paths of a glyph in the masters at some locations.
    pub draw: D,
    /// Have a charstring blend against a variation store index.
    pub with_vsindex: V,
}

/// What a `CFF2` table is encoded from, and the bounds of its glyphs.
#[derive(Debug)]
pub struct Cff2Font {
    /// In glyph order.
    pub glyphs: Vec<Charstring>,
    pub plan: VarStorePlan,
    pub private: Cff2PrivateDictValues,
    /// The font matrix of the Top DICT scales by one over this.
    pub units_per_em: u16,
    /// Rounded; an all-zero box is no box.
    pub glyph_bounds: Vec<Option<[i32; 4]>>,
    /// Grown to whole units.
    pub glyph_outer_bounds: Vec<Option<[i32; 4]>>,
}

/// The paths of a glyph at some places.
pub open spec fn are_paths(
    job: GlyphJob,
    places: Seq<Map<Tag, Real>>,
    paths: Seq<Vec<PathEl>>,
) -> bool {
    &&& paths.len() == places.len()
    &&& forall|j: int|
        0 <= j < paths.len() ==> (#[trigger] paths[j])@ == cff2::outline_map(
            job.outlines@,
        )[places[j]]
}

fn paths_at(job: &GlyphJob, places: &Vec<Location>) -> (r: Vec<Vec<PathEl>>)
    requires
        forall|j: int|
            0 <= j < places@.len() ==> cff2::outline_map(job.outlines@).contains_key(
                (#[trigger] places@[j])@,
            ),
    ensures
        are_paths(*job, coords::places(places@), r@),
{
    let mut r: Vec<Vec<PathEl>> = Vec::new();
    let mut i: usize = 0;
    while i < places.len()
        invariant
            i <= places@.len(),
            forall|j: int|
                0 <= j < places@.len() ==> cff2::outline_map(job.outlines@).contains_key(
                    (#[trigger] places@[j])@,
                ),
            r@.len() == i,
            forall|j: int|
                0 <= j < i ==> (#[trigger] r@[j])@ == cff2::outline_map(
                    job.outlines@,
                )[places@[j]@],
        decreases places.len() - i,
    {
        match cff2::find_outline(&job.outlines, &places[i]) {
            Some(k) => {
                r.push(cff2::copy_path(&job.outlines[k].1));
            },
            None => {
                assert(false);
            },
        }
        i = i + 1;
    }
    r
}

proof fn lemma_filled_keeps(
    outlines: Map<Map<Tag, Real>, Seq<PathEl>>,
    masters: Seq<Location>,
    outline: Seq<PathEl>,
    at: Map<Tag, Real>,
)
    requires
        outlines.contains_key(at),
    ensures
        cff2::filled(outlines, masters, outline).contains_key(at),
    decreases masters.len(),
{
    if masters.len() > 0 {
        lemma_filled_keeps(outlines, masters.drop_last(), outline, at);
    }
}

/// A glyph has an outline in every master that it varies across.
proof fn lemma_outlines_are_there(
    build: Cff2Build,
    glyph: DrawnGlyph,
    job: GlyphJob,
    at: Map<Tag, Real>,
)
    requires
        build.default_index < build.masters@.len(),
        cff2::fitted_outlines(glyph.outlines@, build.axis_order@).contains_key(
            build.masters@[build.default_index as int]@,
        ),
        build.is_job_for(glyph.name@, glyph.outlines@, job),
        cff2::picked(build.masters@, job.mask@).contains(at),
    ensures
        cff2::outline_map(job.outlines@).contains_key(at),
{
    let own = cff2::fitted_outlines(glyph.outlines@, build.axis_order@);
    let home = build.masters@[build.default_index as int]@;
    lemma_picked(build.masters@, job.mask@, at);
    let k = choose|k: int|
        0 <= k < build.masters@.len() && job.mask@[k] && (#[trigger] build.masters@[k])@ == at;
    if k == build.default_index {
        lemma_filled_keeps(own, build.masters@, own[home], at);
    }
}

/// Whether a glyph is to blend against an index of the variation store.
pub open spec fn claims(step: (GlyphJob, BlendedCharstring)) -> bool {
    step.0.participants > 1 && step.1.blends && step.1.marking
}

/// The regions of the model over the masters that take part.
pub open spec fn regions_for<
    O: Fn(&Vec<Location>) -> Vec<Location>,
    G: Fn(&Vec<Location>) -> Vec<VariationRegion>,
>(order: O, regions: G, masters: Seq<Location>, mask: Seq<bool>) -> Seq<Seq<(Tag, Tent)>> {
    regions_of(regions, sub_places(order, masters, mask))
}

/// The variation store once the first `n` glyphs are drawn.
pub open spec fn plan_after<
    O: Fn(&Vec<Location>) -> Vec<Location>,
    G: Fn(&Vec<Location>) -> Vec<VariationRegion>,
>(
    order: O,
    regions: G,
    masters: Seq<Location>,
    steps: Seq<(GlyphJob, BlendedCharstring)>,
    n: int,
) -> PlanState
    decreases n,
{
    if n <= 0 {
        PlanState { regions: seq![], subtables: seq![], masks: seq![] }
    } else {
        let before = plan_after(order, regions, masters, steps, n - 1);
        let mask = steps[n - 1].0.mask@;
        if claims(steps[n - 1]) {
            cff2::claim(before, mask, regions_for(order, regions, masters, mask)).0
        } else {
            before
        }
    }
}

/// The index that glyph `i` blends against.
pub open spec fn index_for<
    O: Fn(&Vec<Location>) -> Vec<Location>,
    G: Fn(&Vec<Location>) -> Vec<VariationRegion>,
>(
    order: O,
    regions: G,
    masters: Seq<Location>,
    steps: Seq<(GlyphJob, BlendedCharstring)>,
    i: int,
) -> u16 {
    cff2::claim(
        plan_after(order, regions, masters, steps, i),
        steps[i].0.mask@,
        regions_for(order, regions, masters, steps[i].0.mask@),
    ).1
}

/// `made` may come of drawing the outlines of a glyph at `places`.
pub open spec fn is_drawing<
    D: Fn(&Vec<Location>, &Vec<Vec<PathEl>>) -> Result<BlendedCharstring, String>,
>(
    draw: D,
    places: Seq<Map<Tag, Real>>,
    job: GlyphJob,
    made: Result<BlendedCharstring, String>,
) -> bool {
    exists|p: Vec<Location>, paths: Vec<Vec<PathEl>>|
        coords::places(p@) == places && are_paths(job, places, paths@) && #[trigger] call_ensures(
            draw,
            (&p, &paths),
            made,
        )
}

/// `step` is what may be drawn of a glyph.
pub open spec fn is_step<
    O: Fn(&Vec<Location>) -> Vec<Location>,
    D: Fn(&Vec<Location>, &Vec<Vec<PathEl>>) -> Result<BlendedCharstring, String>,
>(
    order: O,
    draw: D,
    build: Cff2Build,
    glyph: DrawnGlyph,
    step: (GlyphJob, BlendedCharstring),
) -> bool {
    &&& cff2::fitted_outlines(glyph.outlines@, build.axis_order@).contains_key(
        build.masters@[build.default_index as int]@,
    )
    &&& build.is_job_for(glyph.name@, glyph.outlines@, step.0)
    &&& is_drawing(
        draw,
        sub_places(order, build.masters@, step.0.mask@),
        step.0,
        Ok(step.1),
    )
}

/// `steps` are what may be drawn of the first glyphs.
pub open spec fn are_steps<
    O: Fn(&Vec<Location>) -> Vec<Location>,
    D: Fn(&Vec<Location>, &Vec<Vec<PathEl>>) -> Result<BlendedCharstring, String>,
>(
    order: O,
    draw: D,
    build: Cff2Build,
    glyphs: Seq<DrawnGlyph>,
    steps: Seq<(GlyphJob, BlendedCharstring)>,
) -> bool {
    &&& steps.len() <= glyphs.len()
    &&& forall|i: int|
        0 <= i < steps.len() ==> is_step(order, draw, build, glyphs[i], #[trigger] steps[i])
}

/// Where the outlines of glyphs are, one glyph after the other.
pub open spec fn outline_places(glyphs: Seq<DrawnGlyph>, axes: Seq<Tag>) -> Seq<Map<Tag, Real>>
    decreases glyphs.len(),
{
    if glyphs.len() == 0 {
        seq![]
    } else {
        outline_places(glyphs.drop_last(), axes) + glyphs.last().outlines@.map_values(
            |o: (Location, Vec<PathEl>)| coords::fitted(o.0@, axes),
        )
    }
}

/// `build` is how building begins: with the masters in the order of the model
/// over them, the default one among them.
pub open spec fn is_start<O: Fn(&Vec<Location>) -> Vec<Location>>(
    order: O,
    static_metadata: StaticMetadata,
    glyphs: Seq<DrawnGlyph>,
    source_has_notdef: bool,
    build: Cff2Build,
) -> bool {
    let axes = coords::tags_of(static_metadata.axes@);
    &&& coords::places(build.masters@) == master_places(order, static_metadata, glyphs)
    &&& build.default_index < build.masters@.len()
    &&& build.masters@[build.default_index as int]@ == coords::fitted(Map::empty(), axes)
    &&& forall|k: int|
        0 <= k < build.default_index ==> (#[trigger] build.masters@[k])@ != coords::fitted(
            Map::empty(),
            axes,
        )
    &&& build.axis_order@ == axes
    &&& build.synthesized_notdef == !source_has_notdef
}

/// Where the masters of a font are, in the order of the model over them.
pub open spec fn master_places<O: Fn(&Vec<Location>) -> Vec<Location>>(
    order: O,
    static_metadata: StaticMetadata,
    glyphs: Seq<DrawnGlyph>,
) -> Seq<Map<Tag, Real>> {
    order_of(
        order,
        lookup::first_seen(
            coords::places(static_metadata.variation_model.locations@) + outline_places(
                glyphs,
                coords::tags_of(static_metadata.axes@),
            ),
        ),
    )
}

/// What becomes of glyph `i`: its charstring blends against its index if it
/// claims one, and these are its bounds.
pub open spec fn glyph_becomes<
    R: Fn(Real) -> i32,
    F: Fn(&Vec<Real>, &Vec<Real>) -> Real,
    L: Fn(Real) -> i32,
    H: Fn(Real) -> i32,
    O: Fn(&Vec<Location>) -> Vec<Location>,
    G: Fn(&Vec<Location>) -> Vec<VariationRegion>,
    V: Fn(&Vec<u8>, u16) -> Result<Vec<u8>, String>,
>(
    with: OutlineArithmetic<R, F, L, H>,
    order: O,
    regions: G,
    with_vsindex: V,
    masters: Seq<Location>,
    steps: Seq<(GlyphJob, BlendedCharstring)>,
    i: int,
    glyph: Charstring,
    bounds: Option<[i32; 4]>,
    outer: Option<[i32; 4]>,
) -> bool {
    let made = steps[i].1;
    &&& glyph.bounds == made.bounds
    &&& if claims(steps[i]) {
        call_ensures(
            with_vsindex,
            (&made.bytes, index_for(order, regions, masters, steps, i)),
            Ok(glyph.bytes),
        )
    } else {
        glyph.bytes == made.bytes
    }
    &&& exists|rounded: Option<[i32; 4]>| #[trigger]
        cff_build::rounded_box(with.round, made.bounds, rounded) && bounds == cff::recorded(
            rounded,
        )
    &&& cff_build::grown(with.floor, with.ceil, made.bounds, outer)
}

/// The variation store of a font: even one in which nothing blends has an
/// index, so that its Private DICT has a model to blend against.
pub open spec fn final_plan<
    O: Fn(&Vec<Location>) -> Vec<Location>,
    G: Fn(&Vec<Location>) -> Vec<VariationRegion>,
>(
    order: O,
    regions: G,
    masters: Seq<Location>,
    steps: Seq<(GlyphJob, BlendedCharstring)>,
) -> PlanState {
    let drawn = plan_after(order, regions, masters, steps, steps.len() as int);
    if drawn.subtables.len() == 0 {
        cff2::claim(
            drawn,
            Seq::new(masters.len(), |i: int| true),
            regions_of(regions, coords::places(masters)),
        ).0
    } else {
        drawn
    }
}

/// `font` may come of `build` and these steps.
pub open spec fn font_of<
    R: Fn(Real) -> i32,
    F: Fn(&Vec<Real>, &Vec<Real>) -> Real,
    L: Fn(Real) -> i32,
    H: Fn(Real) -> i32,
    O: Fn(&Vec<Location>) -> Vec<Location>,
    G: Fn(&Vec<Location>) -> Vec<VariationRegion>,
    M: Fn(&Vec<Location>, &Vec<Number>) -> Vec<Number>,
    B: Fn(Real) -> Real,
    C: Fn(Real) -> Number,
    V: Fn(&Vec<u8>, u16) -> Result<Vec<u8>, String>,
>(
    with: OutlineArithmetic<R, F, L, H>,
    model: ModelArithmetic<O, G, M, B, C>,
    with_vsindex: V,
    static_metadata: StaticMetadata,
    masters: Seq<Location>,
    steps: Seq<(GlyphJob, BlendedCharstring)>,
    font: Cff2Font,
) -> bool {
    &&& font.glyphs@.len() == steps.len()
    &&& font.glyph_bounds@.len() == steps.len()
    &&& font.glyph_outer_bounds@.len() == steps.len()
    &&& forall|i: int|
        0 <= i < steps.len() ==> glyph_becomes(
            with,
            model.order,
            model.regions,
            with_vsindex,
            masters,
            steps,
            i,
            #[trigger] font.glyphs@[i],
            font.glyph_bounds@[i],
            font.glyph_outer_bounds@[i],
        )
    &&& font.units_per_em == static_metadata.units_per_em
    &&& font.plan@ == final_plan(model.order, model.regions, masters, steps)
    &&& font.plan@.masks.len() > 0
    &&& privates_blend_to(
        with.round,
        with.blue_scale,
        model.deltas,
        model.read_back,
        model.number,
        static_metadata,
        sub_places(model.order, masters, font.plan@.masks[0]),
        font.private,
    )
}

/// `e` may be why the next glyph after `steps` cannot be drawn.
pub open spec fn stops_with<
    O: Fn(&Vec<Location>) -> Vec<Location>,
    G: Fn(&Vec<Location>) -> Vec<VariationRegion>,
    D: Fn(&Vec<Location>, &Vec<Vec<PathEl>>) -> Result<BlendedCharstring, String>,
    V: Fn(&Vec<u8>, u16) -> Result<Vec<u8>, String>,
>(
    order: O,
    regions: G,
    pen: Cff2Pen<D, V>,
    build: Cff2Build,
    glyph: DrawnGlyph,
    steps: Seq<(GlyphJob, BlendedCharstring)>,
    e: Error,
) -> bool {
    if !cff2::fitted_outlines(glyph.outlines@, build.axis_order@).contains_key(
        build.masters@[build.default_index as int]@,
    ) {
        e == Error::GlyphError(glyph.name, GlyphProblem::MissingDefault)
    } else {
        e matches Error::Charstring(why) && {
            ||| cannot_be_drawn(order, pen.draw, build, glyph, why)
            ||| cannot_be_indexed(order, regions, pen, build, glyph, steps, why)
        }
    }
}

/// `why` may be why a glyph cannot be drawn.
pub open spec fn cannot_be_drawn<
    O: Fn(&Vec<Location>) -> Vec<Location>,
    D: Fn(&Vec<Location>, &Vec<Vec<PathEl>>) -> Result<BlendedCharstring, String>,
>(order: O, draw: D, build: Cff2Build, glyph: DrawnGlyph, why: String) -> bool {
    exists|job: GlyphJob| #[trigger]
        build.is_job_for(glyph.name@, glyph.outlines@, job) && is_drawing(
            draw,
            sub_places(order, build.masters@, job.mask@),
            job,
            Err(why),
        )
}

/// `why` may be why a glyph that is drawn cannot blend against its index.
pub open spec fn cannot_be_indexed<
    O: Fn(&Vec<Location>) -> Vec<Location>,
    G: Fn(&Vec<Location>) -> Vec<VariationRegion>,
    D: Fn(&Vec<Location>, &Vec<Vec<PathEl>>) -> Result<BlendedCharstring, String>,
    V: Fn(&Vec<u8>, u16) -> Result<Vec<u8>, String>,
>(
    order: O,
    regions: G,
    pen: Cff2Pen<D, V>,
    build: Cff2Build,
    glyph: DrawnGlyph,
    steps: Seq<(GlyphJob, BlendedCharstring)>,
    why: String,
) -> bool {
    exists|step: (GlyphJob, BlendedCharstring)| #[trigger]
        is_step(order, pen.draw, build, glyph, step) && claims(step) && call_ensures(
            pen.with_vsindex,
            (
                &step.1.bytes,
                index_for(order, regions, build.masters@, steps.push(step), steps.len() as int),
            ),
            Err(why),
        )
}

/// `e` may be why there is no table.
pub open spec fn fails_with<
    O: Fn(&Vec<Location>) -> Vec<Location>,
    G: Fn(&Vec<Location>) -> Vec<VariationRegion>,
    D: Fn(&Vec<Location>, &Vec<Vec<PathEl>>) -> Result<BlendedCharstring, String>,
    V: Fn(&Vec<u8>, u16) -> Result<Vec<u8>, String>,
>(
    order: O,
    regions: G,
    pen: Cff2Pen<D, V>,
    static_metadata: StaticMetadata,
    glyphs: Seq<DrawnGlyph>,
    source_has_notdef: bool,
    e: Error,
) -> bool {
    let home = coords::fitted(Map::empty(), coords::tags_of(static_metadata.axes@));
    if !master_places(order, static_metadata, glyphs).contains(home) {
        e matches Error::NoVariationModel(at) && at@ == home
    } else {
        exists|build: Cff2Build, steps: Seq<(GlyphJob, BlendedCharstring)>|
            is_start(order, static_metadata, glyphs, source_has_notdef, build) && steps.len()
                < glyphs.len() && #[trigger] are_steps(order, pen.draw, build, glyphs, steps)
                && stops_with(
                order,
                regions,
                pen,
                build,
                glyphs[steps.len() as int],
                steps,
                e,
            )
    }
}

proof fn lemma_plan_is_stable<
    O: Fn(&Vec<Location>) -> Vec<Location>,
    G: Fn(&Vec<Location>) -> Vec<VariationRegion>,
>(
    order: O,
    regions: G,
    masters: Seq<Location>,
    steps: Seq<(GlyphJob, BlendedCharstring)>,
    step: (GlyphJob, BlendedCharstring),
    n: int,
)
    requires
        n <= steps.len(),
    ensures
        plan_after(order, regions, masters, steps.push(step), n) == plan_after(
            order,
            regions,
            masters,
            steps,
            n,
        ),
    decreases n,
{
    if n > 0 {
        lemma_plan_is_stable(order, regions, masters, steps, step, n - 1);
        assert(steps.push(step)[n - 1] == steps[n - 1]);
    }
}

/// Every set of masters in a plan has the default one.
spec fn masks_have(plan: PlanState, masters: nat, default_index: int) -> bool {
    forall|k: int|
        0 <= k < plan.masks.len() ==> (#[trigger] plan.masks[k]).len() == masters
            && plan.masks[k][default_index]
}

fn sources_of(glyphs: &Vec<DrawnGlyph>, Ghost(axes): Ghost<Seq<Tag>>) -> (r: Vec<Vec<Location>>)
    ensures
        cff2::glyph_places(r@, axes) == outline_places(glyphs@, axes),
{
    let mut r: Vec<Vec<Location>> = Vec::new();
    let mut i: usize = 0;
    while i < glyphs.len()
        invariant
            i <= glyphs@.len(),
            cff2::glyph_places(r@, axes) == outline_places(glyphs@.take(i as int), axes),
        decreases glyphs.len() - i,
    {
        let outlines: &Vec<(Location, Vec<PathEl>)> = &glyphs[i].outlines;
        let ghost there = outlines@.map_values(
            |o: (Location, Vec<PathEl>)| coords::fitted(o.0@, axes),
        );
        let mut places: Vec<Location> = Vec::new();
        let mut k: usize = 0;
        while k < outlines.len()
            invariant
                k <= outlines@.len(),
                there == outlines@.map_values(
                    |o: (Location, Vec<PathEl>)| coords::fitted(o.0@, axes),
                ),
                cff2::fitted_places(places@, axes) =~= there.take(k as int),
            decreases outlines.len() - k,
        {
            let ghost before = places@;
            places.push(outlines[k].0.clone());
            assert(cff2::fitted_places(places@, axes) =~= cff2::fitted_places(before, axes).push(
                coords::fitted(outlines@[k as int].0@, axes),
            ));
            k = k + 1;
        }
        assert(there.take(k as int) =~= there);
        let ghost before = r@;
        r.push(places);
        assert(r@.drop_last() =~= before);
        assert(glyphs@.take(i + 1).drop_last() =~= glyphs@.take(i as int));
        i = i + 1;
    }
    assert(glyphs@.take(i as int) =~= glyphs@);
    r
}

/// What a `CFF2` table is encoded from.
///
/// Each glyph is drawn across the masters that draw it, and blends against an
/// index of the variation store that belongs to just those masters. The Private
/// DICT blends against index zero, whichever glyph claimed it first.
#[verifier::rlimit(40)]
pub fn build_cff2<
    R: Fn(Real) -> i32,
    F: Fn(&Vec<Real>, &Vec<Real>) -> Real,
    L: Fn(Real) -> i32,
    H: Fn(Real) -> i32,
    O: Fn(&Vec<Location>) -> Vec<Location>,
    G: Fn(&Vec<Location>) -> Vec<VariationRegion>,
    M: Fn(&Vec<Location>, &Vec<Number>) -> Vec<Number>,
    B: Fn(Real) -> Real,
    C: Fn(Real) -> Number,
    D: Fn(&Vec<Location>, &Vec<Vec<PathEl>>) -> Result<BlendedCharstring, String>,
    V: Fn(&Vec<u8>, u16) -> Result<Vec<u8>, String>,
>(
    static_metadata: &StaticMetadata,
    glyphs: &Vec<DrawnGlyph>,
    source_has_notdef: bool,
    with: &OutlineArithmetic<R, F, L, H>,
    model: &ModelArithmetic<O, G, M, B, C>,
    pen: &Cff2Pen<D, V>,
) -> (r: Result<Cff2Font, Error>)
    requires
        with.wf(),
        model.wf(),
        forall|places: Vec<Location>, paths: Vec<Vec<PathEl>>|
            call_requires(pen.draw, (&places, &paths)),
        forall|bytes: Vec<u8>, index: u16| call_requires(pen.with_vsindex, (&bytes, index)),
    ensures
        match r {
            Ok(font) => exists|build: Cff2Build, steps: Seq<(GlyphJob, BlendedCharstring)>|
                is_start(model.order, *static_metadata, glyphs@, source_has_notdef, build)
                    && steps.len() == glyphs@.len() && #[trigger] are_steps(
                    model.order,
                    pen.draw,
                    build,
                    glyphs@,
                    steps,
                ) && font_of(
                    *with,
                    *model,
                    pen.with_vsindex,
                    *static_metadata,
                    build.masters@,
                    steps,
                    font,
                ),
            Err(e) => fails_with(
                model.order,
                model.regions,
                *pen,
                *static_metadata,
                glyphs@,
                source_has_notdef,
                e,
            ),
        },
{
    let axes: Vec<Tag> = coords::axis_order(&static_metadata.axes);
    let sources: Vec<Vec<Location>> = sources_of(glyphs, Ghost(axes@));
    let all: Vec<Location> = cff2::master_locations(
        &static_metadata.variation_model.locations,
        &sources,
        &axes,
    );
    let masters: Vec<Location> = ordered(&model.order, &all);
    let default: Location = Location::new().fit_to_axes(&axes);
    let mut build: Cff2Build = match Cff2Build::new(masters, &default, axes, source_has_notdef) {
        Ok(build) => build,
        Err(e) => {
            return Err(e);
        },
    };
    let ghost first = build;
    let ghost mut steps: Seq<(GlyphJob, BlendedCharstring)> = seq![];
    assert(is_start(model.order, *static_metadata, glyphs@, source_has_notdef, first));
    let mut drawn: Vec<Charstring> = Vec::new();
    let mut i: usize = 0;
    while i < glyphs.len()
        invariant
            i <= glyphs@.len(),
            with.wf(),
            model.wf(),
            forall|places: Vec<Location>, paths: Vec<Vec<PathEl>>|
                call_requires(pen.draw, (&places, &paths)),
            forall|bytes: Vec<u8>, index: u16| call_requires(pen.with_vsindex, (&bytes, index)),
            is_start(model.order, *static_metadata, glyphs@, source_has_notdef, first),
            master_places(model.order, *static_metadata, glyphs@).contains(
                coords::fitted(Map::empty(), coords::tags_of(static_metadata.axes@)),
            ),
            build.wf(),
            build.masters == first.masters,
            build.default_index == first.default_index,
            build.axis_order == first.axis_order,
            build.synthesized_notdef == first.synthesized_notdef,
            steps.len() == i,
            are_steps(model.order, pen.draw, first, glyphs@, steps),
            build.plan@ == plan_after(
                model.order,
                model.regions,
                first.masters@,
                steps,
                i as int,
            ),
            masks_have(build.plan@, first.masters@.len(), first.default_index as int),
            drawn@.len() == i,
            build.glyph_bounds@.len() == i,
            build.glyph_outer_bounds@.len() == i,
            forall|k: int|
                0 <= k < i ==> glyph_becomes(
                    *with,
                    model.order,
                    model.regions,
                    pen.with_vsindex,
                    first.masters@,
                    steps,
                    k,
                    #[trigger] drawn@[k],
                    build.glyph_bounds@[k],
                    build.glyph_outer_bounds@[k],
                ),
        decreases glyphs.len() - i,
    {
        let glyph: &DrawnGlyph = &glyphs[i];
        let job: GlyphJob = match build.prepare_glyph(&glyph.name, &glyph.outlines) {
            Ok(job) => job,
            Err(e) => {
                assert(stops_with(
                    model.order,
                    model.regions,
                    *pen,
                    first,
                    *glyph,
                    steps,
                    e,
                ));
                return Err(e);
            },
        };
        assert(first.is_job_for(glyph.name@, glyph.outlines@, job));
        let places: Vec<Location> = sub_model(&build.masters, &job.mask, &model.order);
        proof {
            assert forall|j: int| 0 <= j < places@.len() implies cff2::outline_map(
                job.outlines@,
            ).contains_key((#[trigger] places@[j])@) by {
                broadcast use vstd::seq_lib::group_to_multiset_ensures;

                let found = coords::places(places@);
                let wanted = cff2::picked(first.masters@, job.mask@);
                assert(found[j] == places@[j]@);
                assert(found.contains(places@[j]@));
                assert(found.to_multiset().count(places@[j]@) > 0);
                assert(wanted.contains(places@[j]@));
                lemma_outlines_are_there(first, *glyph, job, places@[j]@);
            }
        }
        let paths: Vec<Vec<PathEl>> = paths_at(&job, &places);
        let made: Result<BlendedCharstring, String> = (pen.draw)(&places, &paths);
        assert(is_drawing(
            pen.draw,
            sub_places(model.order, first.masters@, job.mask@),
            job,
            made,
        ));
        let made: BlendedCharstring = match made {
            Ok(made) => made,
            Err(why) => {
                assert(cannot_be_drawn(model.order, pen.draw, first, *glyph, why));
                let e = Error::Charstring(why);
                assert(stops_with(
                    model.order,
                    model.regions,
                    *pen,
                    first,
                    *glyph,
                    steps,
                    e,
                ));
                return Err(e);
            },
        };
        let ghost step = (job, made);
        let ghost before = steps;
        assert(is_step(model.order, pen.draw, first, *glyph, step));
        let regions: Vec<VariationRegion> = regions_over(&model.regions, &places);
        let rounded: Option<[i32; 4]> = cff_build::outer_bounds(
            made.bounds,
            &with.round,
            &with.round,
        );
        assert(cff_build::rounded_box(with.round, made.bounds, rounded));
        let outer: Option<[i32; 4]> = cff_build::outer_bounds(
            made.bounds,
            &with.floor,
            &with.ceil,
        );
        let index: Option<u16> = build.record_glyph(
            &job,
            made.blends,
            made.marking,
            &regions,
            rounded,
            outer,
        );
        proof {
            steps = before.push(step);
            lemma_plan_is_stable(
                model.order,
                model.regions,
                first.masters@,
                before,
                step,
                i as int,
            );
            assert(index is Some <==> claims(step));
            assert(index matches Some(index) ==> index == index_for(
                model.order,
                model.regions,
                first.masters@,
                steps,
                i as int,
            ));
        }
        let bytes: Vec<u8> = match index {
            Some(index) => match (pen.with_vsindex)(&made.bytes, index) {
                Ok(bytes) => bytes,
                Err(why) => {
                    assert(cannot_be_indexed(
                        model.order,
                        model.regions,
                        *pen,
                        first,
                        *glyph,
                        before,
                        why,
                    ));
                    let e = Error::Charstring(why);
                    assert(stops_with(
                        model.order,
                        model.regions,
                        *pen,
                        first,
                        *glyph,
                        before,
                        e,
                    ));
                    return Err(e);
                },
            },
            None => made.bytes,
        };
        drawn.push(Charstring { bytes, bounds: made.bounds });
        proof {
            assert forall|k: int| 0 <= k < i + 1 implies glyph_becomes(
                *with,
                model.order,
                model.regions,
                pen.with_vsindex,
                first.masters@,
                steps,
                k,
                #[trigger] drawn@[k],
                build.glyph_bounds@[k],
                build.glyph_outer_bounds@[k],
            ) by {
                if k < i {
                    assert(steps[k] == before[k]);
                    lemma_plan_is_stable(
                        model.order,
                        model.regions,
                        first.masters@,
                        before,
                        step,
                        k,
                    );
                }
            }
        }
        i = i + 1;
    }
    let regions: Vec<VariationRegion> = regions_over(&model.regions, &build.masters);
    let mask: Vec<bool> = build.finish(&regions);
    let blending: Vec<Location> = sub_model(&build.masters, &mask, &model.order);
    proof {
        broadcast use vstd::seq_lib::group_to_multiset_ensures;

        let home = first.masters@[first.default_index as int]@;
        lemma_picked(first.masters@, mask@, home);
        let wanted = cff2::picked(first.masters@, mask@);
        assert(wanted.contains(home));
        assert(wanted.to_multiset().count(home) > 0);
        assert(coords::places(blending@).contains(home));
    }
    let private: Cff2PrivateDictValues = private_dict(static_metadata, &blending, with, model);
    let font = Cff2Font {
        glyphs: drawn,
        plan: build.plan,
        private,
        units_per_em: static_metadata.units_per_em,
        glyph_bounds: build.glyph_bounds,
        glyph_outer_bounds: build.glyph_outer_bounds,
    };
    assert(font_of(
        *with,
        *model,
        pen.with_vsindex,
        *static_metadata,
        first.masters@,
        steps,
        font,
    ));
    Ok(font)
}

/// Every set of masters has its subtable.
spec fn has_subtables(plan: PlanState) -> bool {
    plan.subtables.len() == plan.masks.len()
}

/// `later` has all the sets of masters that `plan` has, under the same indices.
spec fn keeps_masks(plan: PlanState, later: PlanState) -> bool {
    &&& plan.masks.len() <= later.masks.len()
    &&& forall|k: int|
        0 <= k < plan.masks.len() ==> (#[trigger] later.masks[k]) == plan.masks[k]
}

proof fn lemma_claim_keeps_masks(
    plan: PlanState,
    mask: Seq<bool>,
    regions: Seq<Seq<(Tag, cff2::Tent)>>,
)
    requires
        has_subtables(plan),
    ensures
        has_subtables(cff2::claim(plan, mask, regions).0),
        keeps_masks(plan, cff2::claim(plan, mask, regions).0),
        cff2::claim(plan, mask, regions).0.masks.len() <= 0x10000 ==> {
            let (later, index) = cff2::claim(plan, mask, regions);
            index < later.masks.len() && later.masks[index as int] == mask
        },
{
}

proof fn lemma_plan_keeps_masks<
    O: Fn(&Vec<Location>) -> Vec<Location>,
    G: Fn(&Vec<Location>) -> Vec<VariationRegion>,
>(
    order: O,
    regions: G,
    masters: Seq<Location>,
    steps: Seq<(GlyphJob, BlendedCharstring)>,
    m: int,
    n: int,
)
    requires
        m <= n,
    ensures
        has_subtables(plan_after(order, regions, masters, steps, n)),
        keeps_masks(
            plan_after(order, regions, masters, steps, m),
            plan_after(order, regions, masters, steps, n),
        ),
    decreases n,
{
    if n > 0 {
        let before = plan_after(order, regions, masters, steps, n - 1);
        if m < n {
            lemma_plan_keeps_masks(order, regions, masters, steps, m, n - 1);
        } else {
            lemma_plan_keeps_masks(order, regions, masters, steps, n - 1, n - 1);
        }
        let mask = steps[n - 1].0.mask@;
        lemma_claim_keeps_masks(before, mask, regions_for(order, regions, masters, mask));
    }
}

/// In the variation store of the whole font, the index that a glyph blends
/// against is that of the masters which draw it, unless there are more sets of
/// masters than indices.
pub proof fn law_glyphs_blend_over_their_masters<
    O: Fn(&Vec<Location>) -> Vec<Location>,
    G: Fn(&Vec<Location>) -> Vec<VariationRegion>,
>(
    order: O,
    regions: G,
    masters: Seq<Location>,
    steps: Seq<(GlyphJob, BlendedCharstring)>,
    i: int,
)
    requires
        0 <= i < steps.len(),
        claims(steps[i]),
        final_plan(order, regions, masters, steps).masks.len() <= 0x10000,
    ensures
        index_for(order, regions, masters, steps, i) < final_plan(
            order,
            regions,
            masters,
            steps,
        ).masks.len(),
        final_plan(order, regions, masters, steps).masks[index_for(
            order,
            regions,
            masters,
            steps,
            i,
        ) as int] == steps[i].0.mask@,
        final_plan(order, regions, masters, steps).subtables.len() == final_plan(
            order,
            regions,
            masters,
            steps,
        ).masks.len(),
{
    let all = steps.len() as int;
    let mask = steps[i].0.mask@;
    lemma_plan_keeps_masks(order, regions, masters, steps, i, i);
    lemma_claim_keeps_masks(
        plan_after(order, regions, masters, steps, i),
        mask,
        regions_for(order, regions, masters, mask),
    );
    lemma_plan_keeps_masks(order, regions, masters, steps, i + 1, all);
    let drawn = plan_after(order, regions, masters, steps, all);
    assert(plan_after(order, regions, masters, steps, i + 1).masks.len() <= drawn.masks.len());
    assert(final_plan(order, regions, masters, steps) == drawn || drawn.subtables.len() == 0);
}

/// A glyph that all masters draw varies over all of them, in the order of the
/// font; any other over the masters that draw it, in the order of the model over
/// just those.
pub proof fn law_glyphs_vary_over_the_masters_that_draw_them<
    O: Fn(&Vec<Location>) -> Vec<Location>,
>(order: O, masters: Seq<Location>, mask: Seq<bool>, i: int)
    requires
        mask.len() == masters.len(),
        0 <= i < mask.len(),
    ensures
        (forall|k: int| 0 <= k < mask.len() ==> #[trigger] mask[k]) ==> sub_places(
            order,
            masters,
            mask,
        ).len() == masters.len() && sub_places(order, masters, mask)[i] == masters[i]@,
        !mask[i] ==> sub_places(order, masters, mask) == order_of(
            order,
            cff2::picked(masters, mask),
        ),
{
    assert(coords::places(masters).len() == masters.len());
    assert(coords::places(masters)[i] == masters[i]@);
}

/// What a function that puts places in order makes of some is whatever it may
/// return for them.
pub proof fn law_orders_are_what_is_returned<O: Fn(&Vec<Location>) -> Vec<Location>>(
    f: O,
    list: Vec<Location>,
    r: Vec<Location>,
)
    requires
        is_order(f),
        call_ensures(f, (&list,), r),
    ensures
        order_of(f, coords::places(list@)) == coords::places(r@),
        coords::places(r@).to_multiset() == coords::places(list@).to_multiset(),
{
    assert(orders_to(f, coords::places(list@), coords::places(r@)));
}

/// The regions of the model over some places are whatever may be returned for
/// them.
pub proof fn law_regions_are_what_is_returned<G: Fn(&Vec<Location>) -> Vec<VariationRegion>>(
    f: G,
    list: Vec<Location>,
    r: Vec<VariationRegion>,
)
    requires
        is_span(f),
        call_ensures(f, (&list,), r),
    ensures
        regions_of(f, coords::places(list@)) == cff2::tents_of(r@),
{
    assert(spans_to(f, coords::places(list@), cff2::tents_of(r@)));
}

/// The default scale of blues is that of the first master, or 0.039625 if it
/// states none.
pub proof fn law_the_first_masters_blue_scale_is_the_default<B: Fn(Real) -> Real>(
    read_back: B,
    masters: Seq<PrivateDictValues>,
)
    requires
        masters.len() > 0,
    ensures
        masters[0].blue_scale is None ==> default_scale(read_back, masters) == numeric::image(
            read_back,
            0x3FA449BA5E353F7D,
        ),
        masters[0].blue_scale matches Some(scale) ==> default_scale(read_back, masters)
            == numeric::image(read_back, scale),
{
}

/// A glyph wants an index only if several masters draw it, it draws anything
/// and something in that varies. One that wants none leaves the store alone.
pub proof fn law_only_glyphs_that_vary_want_an_index<
    O: Fn(&Vec<Location>) -> Vec<Location>,
    G: Fn(&Vec<Location>) -> Vec<VariationRegion>,
>(
    order: O,
    regions: G,
    masters: Seq<Location>,
    steps: Seq<(GlyphJob, BlendedCharstring)>,
    n: int,
)
    requires
        0 <= n < steps.len(),
    ensures
        plan_after(order, regions, masters, steps, 0).masks.len() == 0,
        plan_after(order, regions, masters, steps, 0).regions.len() == 0,
        plan_after(order, regions, masters, steps, 0).subtables.len() == 0,
        steps[n].0.participants <= 1 || !steps[n].1.blends || !steps[n].1.marking ==> plan_after(
            order,
            regions,
            masters,
            steps,
            n + 1,
        ) == plan_after(order, regions, masters, steps, n),
        steps[n].0.participants > 1 && steps[n].1.blends && steps[n].1.marking ==> plan_after(
            order,
            regions,
            masters,
            steps,
            n + 1,
        ).masks.contains(steps[n].0.mask@) && (plan_after(order, regions, masters, steps, n).masks.contains(
            steps[n].0.mask@,
        ) ==> plan_after(order, regions, masters, steps, n + 1) == plan_after(
            order,
            regions,
            masters,
            steps,
            n,
        )),
{
    let before = plan_after(order, regions, masters, steps, n);
    let after = plan_after(order, regions, masters, steps, n + 1);
    let mask = steps[n].0.mask@;
    if claims(steps[n]) && !before.masks.contains(mask) {
        assert(after.masks == before.masks.push(mask));
        assert(after.masks[before.masks.len() as int] == mask);
    }
}

/// A charstring that wants an index blends against it; any other stays as it
/// was drawn. The bounds are those of the glyph in the default master.
pub proof fn law_charstrings_stay_as_drawn_unless_they_vary<
    R: Fn(Real) -> i32,
    F: Fn(&Vec<Real>, &Vec<Real>) -> Real,
    L: Fn(Real) -> i32,
    H: Fn(Real) -> i32,
    O: Fn(&Vec<Location>) -> Vec<Location>,
    G: Fn(&Vec<Location>) -> Vec<VariationRegion>,
    V: Fn(&Vec<u8>, u16) -> Result<Vec<u8>, String>,
>(
    with: OutlineArithmetic<R, F, L, H>,
    order: O,
    regions: G,
    with_vsindex: V,
    masters: Seq<Location>,
    steps: Seq<(GlyphJob, BlendedCharstring)>,
    i: int,
    glyph: Charstring,
    bounds: Option<[i32; 4]>,
    outer: Option<[i32; 4]>,
)
    requires
        glyph_becomes(
            with,
            order,
            regions,
            with_vsindex,
            masters,
            steps,
            i,
            glyph,
            bounds,
            outer,
        ),
    ensures
        glyph.bounds == steps[i].1.bounds,
        steps[i].0.participants <= 1 || !steps[i].1.blends || !steps[i].1.marking ==> glyph.bytes
            == steps[i].1.bytes,
        steps[i].0.participants > 1 && steps[i].1.blends && steps[i].1.marking ==> call_ensures(
            with_vsindex,
            (&steps[i].1.bytes, index_for(order, regions, masters, steps, i)),
            Ok(glyph.bytes),
        ),
        glyph.bounds is None ==> bounds is None && outer is None,
        glyph.bounds matches Some(b) ==> {
            let zero = numeric::image(with.round, b@[0]) == 0 && numeric::image(with.round, b@[1])
                == 0 && numeric::image(with.round, b@[2]) == 0 && numeric::image(with.round, b@[3])
                == 0;
            &&& bounds is None <==> zero
            &&& !zero ==> bounds->0@[0] == numeric::image(with.round, b@[0]) && bounds->0@[1]
                == numeric::image(with.round, b@[1]) && bounds->0@[2] == numeric::image(
                with.round,
                b@[2],
            ) && bounds->0@[3] == numeric::image(with.round, b@[3])
            &&& outer is Some
            &&& outer->0@[0] == numeric::image(with.floor, b@[0])
            &&& outer->0@[1] == numeric::image(with.floor, b@[1])
            &&& outer->0@[2] == numeric::image(with.ceil, b@[2])
            &&& outer->0@[3] == numeric::image(with.ceil, b@[3])
        },
{
}

/// Outlines are gathered glyph by glyph and, within a glyph, in order, each at
/// its place on exactly the axes of the font.
pub proof fn law_outlines_are_gathered_glyph_by_glyph(
    glyphs: Seq<DrawnGlyph>,
    glyph: DrawnGlyph,
    axes: Seq<Tag>,
    i: int,
)
    ensures
        outline_places(Seq::empty(), axes).len() == 0,
        outline_places(glyphs.push(glyph), axes).len() == outline_places(glyphs, axes).len()
            + glyph.outlines@.len(),
        outline_places(glyphs.push(glyph), axes).take(outline_places(glyphs, axes).len() as int)
            == outline_places(glyphs, axes),
        0 <= i < glyph.outlines@.len() ==> outline_places(glyphs.push(glyph), axes)[outline_places(
            glyphs,
            axes,
        ).len() + i] == coords::fitted(glyph.outlines@[i].0@, axes),
{
    assert(glyphs.push(glyph).drop_last() =~= glyphs);
    assert(outline_places(glyphs.push(glyph), axes).take(
        outline_places(glyphs, axes).len() as int,
    ) =~= outline_places(glyphs, axes));
}

/// Building begins with the axes of the font in order, at the first master on
/// the default location, and with a `.notdef` made up if the source has none.
pub proof fn law_building_begins_at_the_default<O: Fn(&Vec<Location>) -> Vec<Location>>(
    order: O,
    static_metadata: StaticMetadata,
    glyphs: Seq<DrawnGlyph>,
    source_has_notdef: bool,
    build: Cff2Build,
    i: int,
)
    requires
        is_start(order, static_metadata, glyphs, source_has_notdef, build),
        0 <= i < static_metadata.axes@.len(),
    ensures
        build.axis_order@.len() == static_metadata.axes@.len(),
        build.axis_order@[i] == static_metadata.axes@[i].tag,
        build.synthesized_notdef <==> !source_has_notdef,
        build.default_index < build.masters@.len(),
        build.masters@[build.default_index as int]@.contains_key(static_metadata.axes@[i].tag),
        build.masters@[build.default_index as int]@[static_metadata.axes@[i].tag] == 0,
{
    let axes = coords::tags_of(static_metadata.axes@);
    assert(axes[i] == static_metadata.axes@[i].tag);
    coords::law_a_fitted_location_is_on_exactly_its_axes(
        Map::empty(),
        axes,
        static_metadata.axes@[i].tag,
    );
    assert(axes.contains(axes[i]));
}

/// A font in which nothing varies still has one set of masters, which is all of
/// them; any other has the sets that its glyphs want.
pub proof fn law_a_font_has_at_least_one_set_of_masters<
    O: Fn(&Vec<Location>) -> Vec<Location>,
    G: Fn(&Vec<Location>) -> Vec<VariationRegion>,
>(
    order: O,
    regions: G,
    masters: Seq<Location>,
    steps: Seq<(GlyphJob, BlendedCharstring)>,
    i: int,
)
    requires
        plan_after(order, regions, masters, steps, steps.len() as int).masks.len() == 0,
        plan_after(order, regions, masters, steps, steps.len() as int).subtables.len() == 0,
        0 <= i < masters.len(),
    ensures
        final_plan(order, regions, masters, steps).masks.len() == 1,
        final_plan(order, regions, masters, steps).subtables.len() == 1,
        final_plan(order, regions, masters, steps).masks[0].len() == masters.len(),
        final_plan(order, regions, masters, steps).masks[0][i],
{
}

/// Once glyphs have claimed sets of masters, the store is what they made of it.
pub proof fn law_claimed_sets_are_final<
    O: Fn(&Vec<Location>) -> Vec<Location>,
    G: Fn(&Vec<Location>) -> Vec<VariationRegion>,
>(order: O, regions: G, masters: Seq<Location>, steps: Seq<(GlyphJob, BlendedCharstring)>)
    requires
        plan_after(order, regions, masters, steps, steps.len() as int).subtables.len() > 0,
    ensures
        final_plan(order, regions, masters, steps) == plan_after(
            order,
            regions,
            masters,
            steps,
            steps.len() as int,
        ),
{
}

/// A glyph that is not drawn at the default location ends everything, and is
/// named. Any other failure is one of drawing.
pub proof fn law_every_glyph_is_drawn_at_the_default<
    O: Fn(&Vec<Location>) -> Vec<Location>,
    G: Fn(&Vec<Location>) -> Vec<VariationRegion>,
    D: Fn(&Vec<Location>, &Vec<Vec<PathEl>>) -> Result<BlendedCharstring, String>,
    V: Fn(&Vec<u8>, u16) -> Result<Vec<u8>, String>,
>(
    order: O,
    regions: G,
    pen: Cff2Pen<D, V>,
    build: Cff2Build,
    glyph: DrawnGlyph,
    steps: Seq<(GlyphJob, BlendedCharstring)>,
    e: Error,
)
    requires
        stops_with(order, regions, pen, build, glyph, steps, e),
    ensures
        cff2::fitted_outlines(glyph.outlines@, build.axis_order@).contains_key(
            build.masters@[build.default_index as int]@,
        ) <==> e is Charstring,
        !(e is Charstring) ==> e == Error::GlyphError(glyph.name, GlyphProblem::MissingDefault),
{
}

/// The Private DICT of a master is made of the settings there.
pub proof fn law_masters_have_private_dicts_of_their_own<
    R: Fn(Real) -> i32,
    F: Fn(&Vec<Real>, &Vec<Real>) -> Real,
>(
    round: R,
    blue_scale: F,
    static_metadata: StaticMetadata,
    places: Seq<Map<Tag, Real>>,
    masters: Seq<PrivateDictValues>,
    i: int,
) -> (ps: PostscriptSettings)
    requires
        are_privates(round, blue_scale, static_metadata, places, masters),
        0 <= i < places.len(),
    ensures
        masters.len() == places.len(),
        cff::is_private_dict_of(round, blue_scale, ps, masters[i]),
        cff2::settings_at(static_metadata, places[i], ps),
{
    assert(is_private_at(round, blue_scale, static_metadata, places[i], masters[i]));
    choose|ps: PostscriptSettings| #[trigger]
        cff::is_private_dict_of(round, blue_scale, ps, masters[i]) && cff2::settings_at(
            static_metadata,
            places[i],
            ps,
        )
}

/// A glyph is drawn at its places in order, with the outline that it has at each.
pub proof fn law_glyphs_are_drawn_place_by_place<
    D: Fn(&Vec<Location>, &Vec<Vec<PathEl>>) -> Result<BlendedCharstring, String>,
>(
    draw: D,
    places: Seq<Map<Tag, Real>>,
    job: GlyphJob,
    made: Result<BlendedCharstring, String>,
) -> (r: (Vec<Location>, Vec<Vec<PathEl>>))
    requires
        is_drawing(draw, places, job, made),
    ensures
        coords::places(r.0@) == places,
        r.1@.len() == places.len(),
        forall|j: int|
            0 <= j < places.len() ==> (#[trigger] r.1@[j])@ == cff2::outline_map(
                job.outlines@,
            )[places[j]],
        call_ensures(draw, (&r.0, &r.1), made),
{
    choose|p: Vec<Location>, paths: Vec<Vec<PathEl>>|
        coords::places(p@) == places && are_paths(job, places, paths@) && #[trigger] call_ensures(
            draw,
            (&p, &paths),
            made,
        )
}

/// Without a master at the default location there is no table, and the location
/// is told. It is the one place at which that happens.
pub proof fn law_there_is_a_master_at_the_default<
    O: Fn(&Vec<Location>) -> Vec<Location>,
    G: Fn(&Vec<Location>) -> Vec<VariationRegion>,
    D: Fn(&Vec<Location>, &Vec<Vec<PathEl>>) -> Result<BlendedCharstring, String>,
    V: Fn(&Vec<u8>, u16) -> Result<Vec<u8>, String>,
>(
    order: O,
    regions: G,
    pen: Cff2Pen<D, V>,
    static_metadata: StaticMetadata,
    glyphs: Seq<DrawnGlyph>,
    source_has_notdef: bool,
    e: Error,
)
    requires
        fails_with(order, regions, pen, static_metadata, glyphs, source_has_notdef, e),
    ensures
        ({
            let home = coords::fitted(Map::empty(), coords::tags_of(static_metadata.axes@));
            let there = master_places(order, static_metadata, glyphs).contains(home);
            &&& !there ==> (e matches Error::NoVariationModel(at) && at@ == home)
            &&& there ==> e is Charstring || e is GlyphError
        }),
{
    let home = coords::fitted(Map::empty(), coords::tags_of(static_metadata.axes@));
    if master_places(order, static_metadata, glyphs).contains(home) {
        let (build, steps) = choose|
            build: Cff2Build,
            steps: Seq<(GlyphJob, BlendedCharstring)>,
        |
            is_start(order, static_metadata, glyphs, source_has_notdef, build) && steps.len()
                < glyphs.len() && #[trigger] are_steps(order, pen.draw, build, glyphs, steps)
                && stops_with(
                order,
                regions,
                pen,
                build,
                glyphs[steps.len() as int],
                steps,
                e,
            );
        assert(stops_with(
            order,
            regions,
            pen,
            build,
            glyphs[steps.len() as int],
            steps,
            e,
        ));
    }
}

/// A font has a charstring for each glyph that was drawn, scales by its units
/// per em, and has a set of masters that its Private DICT blends over.
pub proof fn law_fonts_have_what_was_drawn<
    R: Fn(Real) -> i32,
    F: Fn(&Vec<Real>, &Vec<Real>) -> Real,
    L: Fn(Real) -> i32,
    H: Fn(Real) -> i32,
    O: Fn(&Vec<Location>) -> Vec<Location>,
    G: Fn(&Vec<Location>) -> Vec<VariationRegion>,
    M: Fn(&Vec<Location>, &Vec<Number>) -> Vec<Number>,
    B: Fn(Real) -> Real,
    C: Fn(Real) -> Number,
    V: Fn(&Vec<u8>, u16) -> Result<Vec<u8>, String>,
>(
    with: OutlineArithmetic<R, F, L, H>,
    model: ModelArithmetic<O, G, M, B, C>,
    with_vsindex: V,
    static_metadata: StaticMetadata,
    masters: Seq<Location>,
    steps: Seq<(GlyphJob, BlendedCharstring)>,
    font: Cff2Font,
) -> (privates: Seq<PrivateDictValues>)
    requires
        font_of(with, model, with_vsindex, static_metadata, masters, steps, font),
    ensures
        font.glyphs@.len() == steps.len(),
        font.glyph_bounds@.len() == steps.len(),
        font.glyph_outer_bounds@.len() == steps.len(),
        font.units_per_em == static_metadata.units_per_em,
        font.plan@ == final_plan(model.order, model.regions, masters, steps),
        font.plan@.masks.len() > 0,
        are_privates(
            with.round,
            with.blue_scale,
            static_metadata,
            sub_places(model.order, masters, font.plan@.masks[0]),
            privates,
        ),
        cff2::private_blends_to(
            model.deltas,
            sub_places(model.order, masters, font.plan@.masks[0]),
            model.number,
            privates,
            default_scale(model.read_back, privates),
            font.private,
        ),
{
    let places = sub_places(model.order, masters, font.plan@.masks[0]);
    choose|privates: Seq<PrivateDictValues>| #[trigger]
        are_privates(with.round, with.blue_scale, static_metadata, places, privates)
            && cff2::private_blends_to(
            model.deltas,
            places,
            model.number,
            privates,
            default_scale(model.read_back, privates),
            font.private,
        )
}

} // verus!
