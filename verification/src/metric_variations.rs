//! How advances and vertical origins vary: which model a glyph's advances are
//! taken through, and what a master says of a glyph it does not have.

use crate::cff2::{Tent, VariationRegion};
use crate::coords;
use crate::coords::{Location, Real, Tag};
use crate::error::Error;
use crate::lookup;
use crate::static_metadata::StaticMetadata;
use crate::text;
use vstd::prelude::*;

verus! {

/// How often a value occurs.
pub open spec fn tally(values: Seq<i16>, v: i16) -> nat
    decreases values.len(),
{
    if values.len() == 0 {
        0
    } else {
        tally(values.drop_last(), v) + if values.last() == v {
            1nat
        } else {
            0nat
        }
    }
}

/// Whether `v` occurs at least as often as any other value and, of those that
/// occur as often, comes first.
pub open spec fn is_most_common(values: Seq<i16>, v: i16) -> bool {
    exists|i: int|
        #![trigger values[i]]
        {
            &&& 0 <= i < values.len()
            &&& values[i] == v
            &&& forall|j: int|
                0 <= j < values.len() ==> tally(values, #[trigger] values[j]) <= tally(values, v)
            &&& forall|j: int| 0 <= j < i ==> tally(values, #[trigger] values[j]) < tally(values, v)
        }
}

/// There is only one most common value.
pub proof fn law_most_common_is_unique(values: Seq<i16>, v: i16, w: i16)
    requires
        is_most_common(values, v),
        is_most_common(values, w),
    ensures
        v == w,
{
    let i = choose|i: int|
        #![trigger values[i]]
        {
            &&& 0 <= i < values.len()
            &&& values[i] == v
            &&& forall|j: int|
                0 <= j < values.len() ==> tally(values, #[trigger] values[j]) <= tally(values, v)
            &&& forall|j: int| 0 <= j < i ==> tally(values, #[trigger] values[j]) < tally(values, v)
        };
    let k = choose|i: int|
        #![trigger values[i]]
        {
            &&& 0 <= i < values.len()
            &&& values[i] == w
            &&& forall|j: int|
                0 <= j < values.len() ==> tally(values, #[trigger] values[j]) <= tally(values, w)
            &&& forall|j: int| 0 <= j < i ==> tally(values, #[trigger] values[j]) < tally(values, w)
        };
    assert(tally(values, values[i]) <= tally(values, w));
    assert(tally(values, values[k]) <= tally(values, v));
}

fn tally_of(values: &Vec<i16>, v: i16) -> (r: usize)
    ensures
        r == tally(values@, v),
        r <= values@.len(),
{
    let mut n: usize = 0;
    let mut i: usize = 0;
    while i < values.len()
        invariant
            i <= values@.len(),
            n <= i,
            n == tally(values@.take(i as int), v),
        decreases values.len() - i,
    {
        assert(values@.take(i + 1).drop_last() =~= values@.take(i as int));
        if values[i] == v {
            n = n + 1;
        }
        i = i + 1;
    }
    assert(values@.take(i as int) =~= values@);
    n
}

/// The most common value, the first seen of those that occur equally often.
pub fn most_common(values: &Vec<i16>) -> (r: Option<i16>)
    ensures
        match r {
            Some(v) => is_most_common(values@, v),
            None => values@.len() == 0,
        },
{
    if values.len() == 0 {
        return None;
    }
    let mut best: usize = 0;
    let mut best_count: usize = tally_of(values, values[0]);
    let mut i: usize = 1;
    while i < values.len()
        invariant
            1 <= i <= values@.len(),
            best < i,
            best_count == tally(values@, values@[best as int]),
            forall|j: int| 0 <= j < i ==> tally(values@, #[trigger] values@[j]) <= best_count,
            forall|j: int| 0 <= j < best ==> tally(values@, #[trigger] values@[j]) < best_count,
        decreases values.len() - i,
    {
        let n: usize = tally_of(values, values[i]);
        if n > best_count {
            best = i;
            best_count = n;
        }
        i = i + 1;
    }
    assert(values@[best as int] == values@[best as int]);
    Some(values[best])
}

/// The vertical origins of a glyph.
#[derive(Debug)]
pub struct OriginGlyph {
    pub name: String,
    /// Where the glyph has sources, and its vertical origin there.
    pub sources: Vec<(Location, i16)>,
    /// The vertical origin that the glyph's default instance has with the
    /// metrics of each master.
    pub default_origins: Vec<i16>,
}

/// What a glyph's sources state at a location: the last of those that are
/// there, once restricted to `axes`.
pub open spec fn stated<V>(
    sources: Seq<(Location, V)>,
    axes: Seq<Tag>,
    at: Map<Tag, Real>,
) -> Option<V>
    decreases sources.len(),
{
    if sources.len() == 0 {
        None
    } else if sources.last().0@.restrict(axes.to_set()) == at {
        Some(sources.last().1)
    } else {
        stated(sources.drop_last(), axes, at)
    }
}

/// Whether glyph `i` is a `.notdef` that exists at the default location only,
/// which counts as drawn in every master.
pub open spec fn is_dense_notdef(glyph: OriginGlyph, i: int) -> bool {
    i == 0 && glyph.name@ == ".notdef"@ && glyph.sources@.len() == 1
}

/// The vertical origin that glyph `i` has at master `l`, if it has one.
pub open spec fn own_origin(
    glyphs: Seq<OriginGlyph>,
    i: int,
    axes: Seq<Tag>,
    locations: Seq<Location>,
    l: int,
) -> Option<i16> {
    if is_dense_notdef(glyphs[i], i) {
        Some(glyphs[i].default_origins@[l])
    } else {
        stated(glyphs[i].sources@, axes, locations[l]@)
    }
}

/// The vertical origins of the first `n` glyphs at master `l`, of those that
/// have one there, in glyph order.
pub open spec fn origins_at(
    glyphs: Seq<OriginGlyph>,
    n: int,
    axes: Seq<Tag>,
    locations: Seq<Location>,
    l: int,
) -> Seq<i16>
    decreases n,
{
    if n <= 0 {
        seq![]
    } else {
        let rest = origins_at(glyphs, n - 1, axes, locations, l);
        match own_origin(glyphs, n - 1, axes, locations, l) {
            Some(origin) => rest.push(origin),
            None => rest,
        }
    }
}

/// What glyph `i` counts as having at master `l`: its own vertical origin, else
/// the most common one there, else zero.
pub open spec fn is_dense_origin(
    glyphs: Seq<OriginGlyph>,
    i: int,
    axes: Seq<Tag>,
    locations: Seq<Location>,
    l: int,
    origin: i16,
) -> bool {
    let there = origins_at(glyphs, glyphs.len() as int, axes, locations, l);
    match own_origin(glyphs, i, axes, locations, l) {
        Some(own) => origin == own,
        None => if there.len() > 0 {
            is_most_common(there, origin)
        } else {
            origin == 0
        },
    }
}

fn find_stated<V: Copy>(sources: &Vec<(Location, V)>, axes: &Vec<Tag>, at: &Location) -> (r: Option<
    V,
>)
    ensures
        r == stated(sources@, axes@, at@),
{
    let mut n: usize = sources.len();
    assert(sources@.take(n as int) =~= sources@);
    while n > 0
        invariant
            n <= sources@.len(),
            stated(sources@, axes@, at@) == stated(sources@.take(n as int), axes@, at@),
        decreases n,
    {
        assert(sources@.take(n as int).drop_last() =~= sources@.take(n - 1));
        assert(sources@.take(n as int).last() == sources@[n - 1]);
        if sources[n - 1].0.subset_axes(axes).same(at) {
            return Some(sources[n - 1].1);
        }
        n = n - 1;
    }
    None
}

fn find_own_origin(
    glyphs: &Vec<OriginGlyph>,
    i: usize,
    axes: &Vec<Tag>,
    locations: &Vec<Location>,
    l: usize,
) -> (r: Option<i16>)
    requires
        i < glyphs@.len(),
        l < locations@.len(),
        is_dense_notdef(glyphs@[i as int], i as int) ==> glyphs@[i as int].default_origins@.len()
            == locations@.len(),
    ensures
        r == own_origin(glyphs@, i as int, axes@, locations@, l as int),
{
    if i == 0 && text::same(glyphs[i].name.as_str(), ".notdef") && glyphs[i].sources.len() == 1 {
        Some(glyphs[i].default_origins[l])
    } else {
        find_stated(&glyphs[i].sources, axes, &locations[l])
    }
}

/// The vertical origin of every glyph at every master.
///
/// A vertical origin is never missing: a glyph that a master does not have gets
/// that master's most common one.
pub fn dense_origins(glyphs: &Vec<OriginGlyph>, axes: &Vec<Tag>, locations: &Vec<Location>) -> (r:
    Vec<Vec<i16>>)
    requires
        glyphs@.len() > 0 && is_dense_notdef(glyphs@[0], 0) ==> glyphs@[0].default_origins@.len()
            == locations@.len(),
    ensures
        r@.len() == glyphs@.len(),
        forall|i: int|
            0 <= i < r@.len() ==> (#[trigger] r@[i])@.len() == locations@.len() && forall|l: int|
                0 <= l < locations@.len() ==> is_dense_origin(
                    glyphs@,
                    i,
                    axes@,
                    locations@,
                    l,
                    #[trigger] r@[i]@[l],
                ),
{
    let mut fallbacks: Vec<Option<i16>> = Vec::new();
    let mut l: usize = 0;
    while l < locations.len()
        invariant
            l <= locations@.len(),
            glyphs@.len() > 0 && is_dense_notdef(glyphs@[0], 0)
                ==> glyphs@[0].default_origins@.len() == locations@.len(),
            fallbacks@.len() == l,
            forall|k: int|
                0 <= k < l ==> match #[trigger] fallbacks@[k] {
                    Some(v) => is_most_common(
                        origins_at(glyphs@, glyphs@.len() as int, axes@, locations@, k),
                        v,
                    ),
                    None => origins_at(
                        glyphs@,
                        glyphs@.len() as int,
                        axes@,
                        locations@,
                        k,
                    ).len() == 0,
                },
        decreases locations.len() - l,
    {
        let mut there: Vec<i16> = Vec::new();
        let mut i: usize = 0;
        while i < glyphs.len()
            invariant
                i <= glyphs@.len(),
                l < locations@.len(),
                glyphs@.len() > 0 && is_dense_notdef(glyphs@[0], 0)
                    ==> glyphs@[0].default_origins@.len() == locations@.len(),
                there@ == origins_at(glyphs@, i as int, axes@, locations@, l as int),
            decreases glyphs.len() - i,
        {
            if let Some(origin) = find_own_origin(glyphs, i, axes, locations, l) {
                there.push(origin);
            }
            i = i + 1;
        }
        fallbacks.push(most_common(&there));
        l = l + 1;
    }
    let mut r: Vec<Vec<i16>> = Vec::new();
    let mut i: usize = 0;
    while i < glyphs.len()
        invariant
            i <= glyphs@.len(),
            glyphs@.len() > 0 && is_dense_notdef(glyphs@[0], 0)
                ==> glyphs@[0].default_origins@.len() == locations@.len(),
            fallbacks@.len() == locations@.len(),
            forall|k: int|
                0 <= k < locations@.len() ==> match #[trigger] fallbacks@[k] {
                    Some(v) => is_most_common(
                        origins_at(glyphs@, glyphs@.len() as int, axes@, locations@, k),
                        v,
                    ),
                    None => origins_at(
                        glyphs@,
                        glyphs@.len() as int,
                        axes@,
                        locations@,
                        k,
                    ).len() == 0,
                },
            r@.len() == i,
            forall|k: int|
                0 <= k < i ==> (#[trigger] r@[k])@.len() == locations@.len() && forall|l: int|
                    0 <= l < locations@.len() ==> is_dense_origin(
                        glyphs@,
                        k,
                        axes@,
                        locations@,
                        l,
                        #[trigger] r@[k]@[l],
                    ),
        decreases glyphs.len() - i,
    {
        let mut row: Vec<i16> = Vec::new();
        let mut l: usize = 0;
        while l < locations.len()
            invariant
                i < glyphs@.len(),
                l <= locations@.len(),
                glyphs@.len() > 0 && is_dense_notdef(glyphs@[0], 0)
                    ==> glyphs@[0].default_origins@.len() == locations@.len(),
                fallbacks@.len() == locations@.len(),
                forall|k: int|
                    0 <= k < locations@.len() ==> match #[trigger] fallbacks@[k] {
                        Some(v) => is_most_common(
                            origins_at(glyphs@, glyphs@.len() as int, axes@, locations@, k),
                            v,
                        ),
                        None => origins_at(
                            glyphs@,
                            glyphs@.len() as int,
                            axes@,
                            locations@,
                            k,
                        ).len() == 0,
                    },
                row@.len() == l,
                forall|k: int|
                    0 <= k < l ==> is_dense_origin(
                        glyphs@,
                        i as int,
                        axes@,
                        locations@,
                        k,
                        #[trigger] row@[k],
                    ),
            decreases locations.len() - l,
        {
            let fallback: Option<i16> = fallbacks[l];
            let origin: i16 = match find_own_origin(glyphs, i, axes, locations, l) {
                Some(own) => own,
                None => fallback.unwrap_or(0),
            };
            row.push(origin);
            l = l + 1;
        }
        r.push(row);
        i = i + 1;
    }
    r
}

/// Where sources are, once restricted to `axes`, each place once.
pub open spec fn source_places<V>(sources: Seq<(Location, V)>, axes: Seq<Tag>) -> Seq<
    Map<Tag, Real>,
> {
    lookup::first_seen(
        sources.map_values(|s: (Location, V)| s.0@.restrict(axes.to_set())),
    )
}

/// Where the entries of a list are.
pub open spec fn entry_places<V>(list: Seq<(Location, V)>) -> Seq<Map<Tag, Real>> {
    list.map_values(|e: (Location, V)| e.0@)
}

/// Two lists name the same places.
pub open spec fn same_places(a: Seq<Map<Tag, Real>>, b: Seq<Map<Tag, Real>>) -> bool {
    &&& forall|i: int| 0 <= i < a.len() ==> b.contains(#[trigger] a[i])
    &&& forall|i: int| 0 <= i < b.len() ==> a.contains(#[trigger] b[i])
}

/// What is to be done about the advances of a glyph.
#[derive(Debug)]
pub enum AdvanceStep {
    /// The glyph does not vary.
    NoVariation,
    /// Take the deltas of these advances through the model of this number, and
    /// record them.
    Deltas { model: usize, advances: Vec<(Location, Real)> },
}

/// The advance deltas of the glyphs of a font, in glyph order.
#[derive(Debug)]
pub struct AdvanceDeltas {
    /// The axes of the font.
    pub axes: Vec<Tag>,
    /// The sets of locations that a model is needed for, the font's own first.
    pub models: Vec<Vec<Location>>,
    /// Deltas by region, for each glyph so far.
    pub deltas: Vec<Vec<(VariationRegion, i16)>>,
    /// All the locations that glyphs of the font have.
    pub glyph_locations: Vec<Location>,
}

/// Whether every position is zero.
pub open spec fn all_zero(at: Map<Tag, Real>) -> bool {
    forall|t: Tag| #[trigger] at.contains_key(t) ==> at[t] == 0
}

/// Whether a glyph is a `.notdef` at the front of the font.
pub open spec fn leading_notdef(deltas: nat, name: Seq<char>) -> bool {
    deltas == 0 && name == ".notdef"@
}

/// Where the advances of a glyph are taken: where it has sources and, for a
/// leading `.notdef` that does not vary, everywhere else that glyphs have them.
pub open spec fn advance_places(
    state: AdvanceDeltas,
    name: Seq<char>,
    sources: Seq<(Location, Real)>,
) -> Seq<Map<Tag, Real>> {
    let own = source_places(sources, state.axes@);
    if own.len() == 1 && leading_notdef(state.deltas@.len(), name) {
        lookup::first_seen(own + coords::places(state.glyph_locations@))
    } else {
        own
    }
}

/// Whether a glyph counts as not varying at all.
pub open spec fn stays_put(
    state: AdvanceDeltas,
    name: Seq<char>,
    sources: Seq<(Location, Real)>,
) -> bool {
    source_places(sources, state.axes@).len() == 1 && !leading_notdef(state.deltas@.len(), name)
}

/// The advance of a glyph at a place: what its sources state there, else the
/// one advance it has.
pub open spec fn advance_at(
    state: AdvanceDeltas,
    sources: Seq<(Location, Real)>,
    at: Map<Tag, Real>,
) -> Real {
    match stated(sources, state.axes@, at) {
        Some(advance) => advance,
        None => stated(sources, state.axes@, source_places(sources, state.axes@)[0])->0,
    }
}

/// Append a place unless the list has it.
fn push_entry(list: &mut Vec<(Location, Real)>, at: Location, value: Real)
    ensures
        entry_places(final(list)@) == (if entry_places(old(list)@).contains(at@) {
            entry_places(old(list)@)
        } else {
            entry_places(old(list)@).push(at@)
        }),
        final(list)@.len() >= old(list)@.len(),
        forall|i: int| 0 <= i < old(list)@.len() ==> #[trigger] final(list)@[i] == old(list)@[i],
        final(list)@.len() > old(list)@.len() ==> final(list)@.len() == old(list)@.len() + 1
            && final(list)@.last().1 == value && final(list)@.last().0@ == at@,
{
    let mut i: usize = 0;
    while i < list.len()
        invariant
            i <= list@.len(),
            *list == *old(list),
            forall|j: int| 0 <= j < i ==> #[trigger] entry_places(list@)[j] != at@,
        decreases list.len() - i,
    {
        if list[i].0.same(&at) {
            assert(entry_places(list@)[i as int] == at@);
            return ;
        }
        assert(entry_places(list@)[i as int] != at@);
        i = i + 1;
    }
    let ghost before = list@;
    assert(!entry_places(before).contains(at@));
    list.push((at, value));
    assert(entry_places(list@) =~= entry_places(before).push(at@));
}

fn place_listed(list: &Vec<Location>, at: &Location) -> (r: bool)
    ensures
        r == coords::places(list@).contains(at@),
{
    match coords::find_place(list, at) {
        Some(i) => {
            assert(coords::places(list@)[i as int] == at@);
            true
        },
        None => {
            assert forall|i: int| 0 <= i < list@.len() implies coords::places(list@)[i] != at@ by {
                assert(list@[i]@ != at@);
            }
            false
        },
    }
}

fn entry_listed(list: &Vec<(Location, Real)>, at: &Location) -> (r: bool)
    ensures
        r == entry_places(list@).contains(at@),
{
    let mut i: usize = 0;
    while i < list.len()
        invariant
            i <= list@.len(),
            forall|j: int| 0 <= j < i ==> #[trigger] entry_places(list@)[j] != at@,
        decreases list.len() - i,
    {
        if list[i].0.same(at) {
            assert(entry_places(list@)[i as int] == at@);
            return true;
        }
        assert(entry_places(list@)[i as int] != at@);
        i = i + 1;
    }
    false
}

fn are_same_places(a: &Vec<Location>, b: &Vec<(Location, Real)>) -> (r: bool)
    ensures
        r == same_places(coords::places(a@), entry_places(b@)),
{
    let mut i: usize = 0;
    while i < a.len()
        invariant
            i <= a@.len(),
            forall|j: int|
                0 <= j < i ==> entry_places(b@).contains(#[trigger] coords::places(a@)[j]),
        decreases a.len() - i,
    {
        if !entry_listed(b, &a[i]) {
            assert(!entry_places(b@).contains(coords::places(a@)[i as int]));
            return false;
        }
        i = i + 1;
    }
    let mut k: usize = 0;
    while k < b.len()
        invariant
            k <= b@.len(),
            forall|j: int|
                0 <= j < a@.len() ==> entry_places(b@).contains(#[trigger] coords::places(a@)[j]),
            forall|j: int|
                0 <= j < k ==> coords::places(a@).contains(#[trigger] entry_places(b@)[j]),
        decreases b.len() - k,
    {
        if !place_listed(a, &b[k].0) {
            assert(!coords::places(a@).contains(entry_places(b@)[k as int]));
            return false;
        }
        k = k + 1;
    }
    true
}

/// The index of the first set of locations that is where the advances are, or
/// the number of sets if there is none.
fn find_model(models: &Vec<Vec<Location>>, advances: &Vec<(Location, Real)>) -> (r: usize)
    ensures
        r <= models@.len(),
        r < models@.len() ==> same_places(
            coords::places(models@[r as int]@),
            entry_places(advances@),
        ),
        forall|i: int|
            0 <= i < r ==> !same_places(
                coords::places((#[trigger] models@[i])@),
                entry_places(advances@),
            ),
{
    let mut m: usize = 0;
    while m < models.len()
        invariant
            m <= models@.len(),
            forall|i: int|
                0 <= i < m ==> !same_places(
                    coords::places((#[trigger] models@[i])@),
                    entry_places(advances@),
                ),
        decreases models.len() - m,
    {
        if are_same_places(&models[m], advances) {
            return m;
        }
        m = m + 1;
    }
    m
}

/// `step` is what is to be done about the next glyph, and `after` what comes of
/// `before` when that has been decided.
pub open spec fn is_step(
    before: AdvanceDeltas,
    name: Seq<char>,
    sources: Seq<(Location, Real)>,
    after: AdvanceDeltas,
    step: AdvanceStep,
) -> bool {
    &&& after.axes == before.axes
    &&& after.glyph_locations == before.glyph_locations
    &&& stays_put(before, name, sources) <==> step is NoVariation
    &&& match step {
        AdvanceStep::NoVariation => after.models == before.models && has_one_more(
            before.deltas@,
            after.deltas@,
            seq![],
        ),
        AdvanceStep::Deltas { model, advances } => after.deltas == before.deltas && is_taken_through(
            before,
            name,
            sources,
            after,
            model as int,
            advances@,
        ),
    }
}

/// `after` is `before` and one more glyph with these deltas.
pub open spec fn has_one_more(
    before: Seq<Vec<(VariationRegion, i16)>>,
    after: Seq<Vec<(VariationRegion, i16)>>,
    deltas: Seq<(Seq<(Tag, Tent)>, i16)>,
) -> bool {
    &&& after.len() == before.len() + 1
    &&& forall|i: int| 0 <= i < before.len() ==> #[trigger] after[i] == before[i]
    &&& region_deltas(after.last()@) == deltas
}

/// `advances` are those of a glyph that varies, and `model` the first set of
/// locations that is where they are, a new one if there was none.
pub open spec fn is_taken_through(
    before: AdvanceDeltas,
    name: Seq<char>,
    sources: Seq<(Location, Real)>,
    after: AdvanceDeltas,
    model: int,
    advances: Seq<(Location, Real)>,
) -> bool {
    let wanted = advance_places(before, name, sources);
    &&& entry_places(advances) == wanted
    &&& forall|i: int|
        0 <= i < advances.len() ==> (#[trigger] advances[i]).1 == advance_at(
            before,
            sources,
            advances[i].0@,
        )
    &&& 0 <= model < after.models@.len()
    &&& same_places(coords::places(after.models@[model]@), wanted)
    &&& forall|i: int|
        0 <= i < model ==> !same_places(coords::places((#[trigger] after.models@[i])@), wanted)
    &&& after.models@.len() == (if model < before.models@.len() {
        before.models@.len()
    } else {
        before.models@.len() + 1
    })
    &&& forall|i: int|
        0 <= i < before.models@.len() ==> #[trigger] after.models@[i] == before.models@[i]
}

/// `r` is what adding a glyph may come to, and `after` what it may leave.
pub open spec fn adds_to<
    D: Fn(&Vec<Location>, &Vec<(Location, Real)>) -> Result<
        Vec<(VariationRegion, bool, i16)>,
        String,
    >,
>(
    take: D,
    before: AdvanceDeltas,
    name: String,
    sources: Seq<(Location, Real)>,
    after: AdvanceDeltas,
    r: Result<(), Error>,
) -> bool {
    &&& after.axes == before.axes
    &&& after.glyph_locations == before.glyph_locations
    &&& if stays_put(before, name@, sources) {
        r is Ok && after.models == before.models && has_one_more(
            before.deltas@,
            after.deltas@,
            seq![],
        )
    } else {
        exists|
            model: int,
            advances: Vec<(Location, Real)>,
            made: Result<Vec<(VariationRegion, bool, i16)>, String>,
        |
            is_taken_through(before, name@, sources, after, model, advances@)
                && #[trigger] call_ensures(take, (&after.models@[model], &advances), made)
                && match made {
                Ok(deltas) => r is Ok && has_one_more(
                    before.deltas@,
                    after.deltas@,
                    varying(deltas@),
                ),
                Err(why) => r == Err::<(), Error>(Error::GlyphDeltaError(name, why))
                    && after.deltas == before.deltas,
            }
    }
}

impl AdvanceDeltas {
    /// Begin with the font's own model, and every location its glyphs have,
    /// restricted to its axes.
    pub fn new(static_metadata: &StaticMetadata, glyph_locations: &Vec<Location>) -> (r:
        AdvanceDeltas)
        ensures
            r.axes@ == coords::tags_of(static_metadata.axes@),
            r.models@.len() == 1,
            coords::places(r.models@[0]@) == coords::places(
                static_metadata.variation_model.locations@,
            ),
            r.deltas@.len() == 0,
            coords::places(r.glyph_locations@) == lookup::first_seen(
                glyph_locations@.map_values(|l: Location| l@.restrict(r.axes@.to_set())),
            ),
    {
        let axes: Vec<Tag> = coords::axis_order(&static_metadata.axes);
        let mut own: Vec<Location> = Vec::new();
        let known: &Vec<Location> = &static_metadata.variation_model.locations;
        let mut i: usize = 0;
        while i < known.len()
            invariant
                i <= known@.len(),
                coords::places(own@) =~= coords::places(known@).take(i as int),
            decreases known.len() - i,
        {
            let ghost before = own@;
            own.push(known[i].clone());
            assert(coords::places(own@) =~= coords::places(before).push(known@[i as int]@));
            i = i + 1;
        }
        assert(coords::places(own@) =~= coords::places(known@));
        let mut models: Vec<Vec<Location>> = Vec::new();
        models.push(own);
        let ghost all = glyph_locations@.map_values(|l: Location| l@.restrict(axes@.to_set()));
        let mut locations: Vec<Location> = Vec::new();
        let mut k: usize = 0;
        assert(coords::places(locations@) =~= lookup::first_seen(all.take(0)));
        while k < glyph_locations.len()
            invariant
                k <= glyph_locations@.len(),
                all == glyph_locations@.map_values(|l: Location| l@.restrict(axes@.to_set())),
                coords::places(locations@) == lookup::first_seen(all.take(k as int)),
            decreases glyph_locations.len() - k,
        {
            assert(all.take(k + 1).drop_last() =~= all.take(k as int));
            let at: Location = glyph_locations[k].subset_axes(&axes);
            assert(all.take(k + 1).last() == at@);
            if !place_listed(&locations, &at) {
                let ghost before = locations@;
                let ghost place = at@;
                locations.push(at);
                assert(coords::places(locations@) =~= coords::places(before).push(place));
            }
            k = k + 1;
        }
        assert(all.take(k as int) =~= all);
        AdvanceDeltas { axes, models, deltas: Vec::new(), glyph_locations: locations }
    }

    /// Decide what is to be done about the advances of the next glyph.
    ///
    /// A glyph that is only defined at the default location has no deltas. A
    /// leading `.notdef` is made to vary all the same, by taking its advance
    /// everywhere, so that the regions of the font are first seen in the order
    /// in which its masters have them.
    pub fn prepare(&mut self, name: &String, sources: &Vec<(Location, Real)>) -> (r: AdvanceStep)
        requires
            source_places(sources@, old(self).axes@).len() == 1 ==> all_zero(
                source_places(sources@, old(self).axes@)[0],
            ),
        ensures
            is_step(*old(self), name@, sources@, *final(self), r),
    {
        let ghost all = sources@.map_values(
            |s: (Location, Real)| s.0@.restrict(self.axes@.to_set()),
        );
        let mut advances: Vec<(Location, Real)> = Vec::new();
        let mut i: usize = 0;
        assert(entry_places(advances@) =~= lookup::first_seen(all.take(0)));
        while i < sources.len()
            invariant
                i <= sources@.len(),
                *self == *old(self),
                all == sources@.map_values(
                    |s: (Location, Real)| s.0@.restrict(self.axes@.to_set()),
                ),
                entry_places(advances@) == lookup::first_seen(all.take(i as int)),
                forall|k: int|
                    0 <= k < advances@.len() ==> stated(
                        sources@,
                        self.axes@,
                        (#[trigger] advances@[k]).0@,
                    ) == Some(advances@[k].1),
            decreases sources.len() - i,
        {
            assert(all.take(i + 1).drop_last() =~= all.take(i as int));
            let at: Location = sources[i].0.subset_axes(&self.axes);
            assert(all.take(i + 1).last() == at@);
            proof {
                lemma_stated_somewhere(sources@, self.axes@, i as int);
            }
            let found: Option<Real> = find_stated(sources, &self.axes, &at);
            let value: Real = match found {
                Some(v) => v,
                None => 0,
            };
            let ghost before = advances@;
            let ghost place = at@;
            push_entry(&mut advances, at, value);
            assert forall|k: int| 0 <= k < advances@.len() implies stated(
                sources@,
                self.axes@,
                (#[trigger] advances@[k]).0@,
            ) == Some(advances@[k].1) by {
                if k < before.len() {
                    assert(advances@[k] == before[k]);
                }
            }
            i = i + 1;
        }
        assert(all.take(i as int) =~= all);
        let ghost own = source_places(sources@, self.axes@);
        assert(entry_places(advances@) == own);
        assert(entry_places(advances@).len() == advances@.len());
        if advances.len() == 1 {
            if self.deltas.len() == 0 && text::same(name.as_str(), ".notdef") {
                let only: Real = advances[0].1;
                assert(own[0] == advances@[0].0@);
                let ghost there = coords::places(self.glyph_locations@);
                let mut k: usize = 0;
                proof {
                    assert(own + there.take(0) =~= own);
                    reveal_with_fuel(lookup::first_seen, 3);
                    assert(own.drop_last() =~= seq![]);
                    assert(lookup::first_seen(own) =~= own);
                    assert(entry_places(advances@)[0] == own[0]);
                    assert forall|p: Map<Tag, Real>| p != own[0] implies #[trigger] stated(
                        sources@,
                        self.axes@,
                        p,
                    ) is None by {
                        lemma_stated_is_a_place(sources@, self.axes@, p);
                    }
                }
                while k < self.glyph_locations.len()
                    invariant
                        k <= self.glyph_locations@.len(),
                        *self == *old(self),
                        own == source_places(sources@, self.axes@),
                        own.len() == 1,
                        there == coords::places(self.glyph_locations@),
                        stated(sources@, self.axes@, own[0]) == Some(only),
                        entry_places(advances@) == lookup::first_seen(own + there.take(k as int)),
                        forall|j: int|
                            0 <= j < advances@.len() ==> (#[trigger] advances@[j]).1 == advance_at(
                                *old(self),
                                sources@,
                                advances@[j].0@,
                            ),
                        forall|p: Map<Tag, Real>| p != own[0] ==> #[trigger] stated(
                            sources@,
                            self.axes@,
                            p,
                        ) is None,
                        entry_places(advances@).contains(own[0]),
                    decreases self.glyph_locations.len() - k,
                {
                    proof {
                        let upto = own + there.take(k + 1);
                        assert(upto.drop_last() =~= own + there.take(k as int));
                        assert(upto.last() == there[k as int]);
                    }
                    let ghost before = advances@;
                    let at: Location = self.glyph_locations[k].clone();
                    push_entry(&mut advances, at, only);
                    proof {
                        let j = choose|j: int|
                            0 <= j < entry_places(before).len() && entry_places(before)[j] == own[0];
                        assert(entry_places(advances@)[j] == own[0]);
                        assert forall|j: int| 0 <= j < advances@.len() implies (
                        #[trigger] advances@[j]).1 == advance_at(
                            *old(self),
                            sources@,
                            advances@[j].0@,
                        ) by {
                            if j < before.len() {
                                assert(advances@[j] == before[j]);
                            }
                        }
                    }
                    k = k + 1;
                }
                assert(there.take(k as int) =~= there);
            } else {
                self.deltas.push(Vec::new());
                assert(region_deltas(self.deltas@.last()@) =~= seq![]);
                return AdvanceStep::NoVariation;
            }
        }
        let ghost wanted = advance_places(*old(self), name@, sources@);
        assert(entry_places(advances@) == wanted);
        let m: usize = find_model(&self.models, &advances);
        if m == self.models.len() {
            let mut places: Vec<Location> = Vec::new();
            let mut k: usize = 0;
            while k < advances.len()
                invariant
                    k <= advances@.len(),
                    coords::places(places@) =~= entry_places(advances@).take(k as int),
                decreases advances.len() - k,
            {
                let ghost before = places@;
                places.push(advances[k].0.clone());
                assert(coords::places(places@) =~= coords::places(before).push(
                    advances@[k as int].0@,
                ));
                k = k + 1;
            }
            assert(coords::places(places@) =~= wanted);
            assert(same_places(wanted, wanted));
            self.models.push(places);
        }
        AdvanceStep::Deltas { model: m, advances }
    }

    /// Add the advances of the next glyph.
    ///
    /// `take` takes the deltas of advances through the model over some
    /// locations. Each comes with whether its region is the default one, which
    /// is left out.
    pub fn add<
        D: Fn(&Vec<Location>, &Vec<(Location, Real)>) -> Result<
            Vec<(VariationRegion, bool, i16)>,
            String,
        >,
    >(&mut self, name: &String, sources: &Vec<(Location, Real)>, take: &D) -> (r: Result<(), Error>)
        requires
            source_places(sources@, old(self).axes@).len() == 1 ==> all_zero(
                source_places(sources@, old(self).axes@)[0],
            ),
            forall|places: Vec<Location>, advances: Vec<(Location, Real)>|
                call_requires(*take, (&places, &advances)),
        ensures
            adds_to(*take, *old(self), *name, sources@, *final(self), r),
    {
        match self.prepare(name, sources) {
            AdvanceStep::NoVariation => Ok(()),
            AdvanceStep::Deltas { model, advances } => {
                let ghost ready = *self;
                let made: Result<Vec<(VariationRegion, bool, i16)>, String> = take(
                    &self.models[model],
                    &advances,
                );
                assert(call_ensures(*take, (&ready.models@[model as int], &advances), made));
                match made {
                    Ok(deltas) => {
                        self.deltas.push(without_default(&deltas));
                        assert(call_ensures(
                            *take,
                            (&self.models@[model as int], &advances),
                            Ok::<Vec<(VariationRegion, bool, i16)>, String>(deltas),
                        ));
                        Ok(())
                    },
                    Err(why) => {
                        assert(call_ensures(
                            *take,
                            (&self.models@[model as int], &advances),
                            Err::<Vec<(VariationRegion, bool, i16)>, String>(why),
                        ));
                        Err(Error::GlyphDeltaError(name.clone(), why))
                    },
                }
            },
        }
    }

    /// Whether every glyph can do with the font's own model.
    pub fn is_single_model(&self) -> (r: bool)
        ensures
            r == (self.models@.len() == 1),
    {
        self.models.len() == 1
    }
}

/// Deltas with the tents of their regions.
pub open spec fn region_deltas(deltas: Seq<(VariationRegion, i16)>) -> Seq<
    (Seq<(Tag, Tent)>, i16),
> {
    deltas.map_values(|d: (VariationRegion, i16)| (d.0@, d.1))
}

/// The deltas whose region is not the default one.
pub open spec fn varying(deltas: Seq<(VariationRegion, bool, i16)>) -> Seq<
    (Seq<(Tag, Tent)>, i16),
>
    decreases deltas.len(),
{
    if deltas.len() == 0 {
        seq![]
    } else if deltas.last().1 {
        varying(deltas.drop_last())
    } else {
        varying(deltas.drop_last()).push((deltas.last().0@, deltas.last().2))
    }
}

fn without_default(deltas: &Vec<(VariationRegion, bool, i16)>) -> (r: Vec<(VariationRegion, i16)>)
    ensures
        region_deltas(r@) == varying(deltas@),
{
    let mut kept: Vec<(VariationRegion, i16)> = Vec::new();
    let mut i: usize = 0;
    while i < deltas.len()
        invariant
            i <= deltas@.len(),
            region_deltas(kept@) =~= varying(deltas@.take(i as int)),
        decreases deltas.len() - i,
    {
        assert(deltas@.take(i + 1).drop_last() =~= deltas@.take(i as int));
        if !deltas[i].1 {
            let ghost before = kept@;
            kept.push((deltas[i].0.clone(), deltas[i].2));
            assert(region_deltas(kept@) =~= region_deltas(before).push(
                (deltas@[i as int].0@, deltas@[i as int].2),
            ));
        }
        i = i + 1;
    }
    assert(deltas@.take(i as int) =~= deltas@);
    kept
}

proof fn lemma_stated_somewhere<V>(sources: Seq<(Location, V)>, axes: Seq<Tag>, i: int)
    requires
        0 <= i < sources.len(),
    ensures
        stated(sources, axes, sources[i].0@.restrict(axes.to_set())) is Some,
    decreases sources.len(),
{
    if i < sources.len() - 1 {
        lemma_stated_somewhere(sources.drop_last(), axes, i);
    }
}

proof fn lemma_stated_is_a_place<V>(sources: Seq<(Location, V)>, axes: Seq<Tag>, at: Map<Tag, Real>)
    ensures
        stated(sources, axes, at) is Some ==> source_places(sources, axes).contains(at),
    decreases sources.len(),
{
    if stated(sources, axes, at) is Some {
        let all = sources.map_values(|s: (Location, V)| s.0@.restrict(axes.to_set()));
        lookup::lemma_first_seen_contains(all);
        lemma_stated_at_some_source(sources, axes, at);
        let i = choose|i: int|
            0 <= i < sources.len() && (#[trigger] sources[i]).0@.restrict(axes.to_set()) == at;
        assert(all[i] == at);
    }
}

proof fn lemma_stated_at_some_source<V>(
    sources: Seq<(Location, V)>,
    axes: Seq<Tag>,
    at: Map<Tag, Real>,
)
    requires
        stated(sources, axes, at) is Some,
    ensures
        exists|i: int|
            0 <= i < sources.len() && (#[trigger] sources[i]).0@.restrict(axes.to_set()) == at,
    decreases sources.len(),
{
    if sources.last().0@.restrict(axes.to_set()) == at {
        assert(sources[sources.len() - 1] == sources.last());
    } else {
        let rest = sources.drop_last();
        lemma_stated_at_some_source(rest, axes, at);
        let i = choose|i: int|
            0 <= i < rest.len() && (#[trigger] rest[i]).0@.restrict(axes.to_set()) == at;
        assert(sources[i] == rest[i]);
    }
}

/// `row` holds what glyph `i` counts as having at every master.
pub open spec fn is_dense_row(
    glyphs: Seq<OriginGlyph>,
    i: int,
    axes: Seq<Tag>,
    locations: Seq<Location>,
    row: Seq<i16>,
) -> bool {
    &&& row.len() == locations.len()
    &&& forall|l: int|
        0 <= l < locations.len() ==> is_dense_origin(
            glyphs,
            i,
            axes,
            locations,
            l,
            #[trigger] row[l],
        )
}

/// `made` may come of the vertical origins of glyph `i`.
pub open spec fn origins_give<D: Fn(&Vec<i16>) -> Result<Vec<(VariationRegion, bool, i16)>, String>>(
    take: D,
    glyphs: Seq<OriginGlyph>,
    i: int,
    axes: Seq<Tag>,
    locations: Seq<Location>,
    made: Result<Vec<(VariationRegion, bool, i16)>, String>,
) -> bool {
    exists|row: Vec<i16>|
        is_dense_row(glyphs, i, axes, locations, row@) && #[trigger] call_ensures(
            take,
            (&row,),
            made,
        )
}

/// `deltas` may be those of the vertical origin of glyph `i`.
pub open spec fn are_origin_deltas<
    D: Fn(&Vec<i16>) -> Result<Vec<(VariationRegion, bool, i16)>, String>,
>(
    take: D,
    glyphs: Seq<OriginGlyph>,
    i: int,
    axes: Seq<Tag>,
    locations: Seq<Location>,
    deltas: Seq<(Seq<(Tag, Tent)>, i16)>,
) -> bool {
    exists|made: Vec<(VariationRegion, bool, i16)>| #[trigger]
        origins_give(take, glyphs, i, axes, locations, Ok(made)) && deltas == varying(made@)
}

/// The vertical origin of glyph `i` may have deltas.
pub open spec fn has_origin_deltas<
    D: Fn(&Vec<i16>) -> Result<Vec<(VariationRegion, bool, i16)>, String>,
>(take: D, glyphs: Seq<OriginGlyph>, i: int, axes: Seq<Tag>, locations: Seq<Location>) -> bool {
    exists|deltas: Seq<(Seq<(Tag, Tent)>, i16)>| #[trigger]
        are_origin_deltas(take, glyphs, i, axes, locations, deltas)
}

/// `e` may be why the vertical origin of glyph `i` has no deltas.
pub open spec fn is_bad_origin<
    D: Fn(&Vec<i16>) -> Result<Vec<(VariationRegion, bool, i16)>, String>,
>(
    take: D,
    glyphs: Seq<OriginGlyph>,
    i: int,
    axes: Seq<Tag>,
    locations: Seq<Location>,
    e: Error,
) -> bool {
    e matches Error::GlyphDeltaError(name, why) && name@ == glyphs[i].name@ && origins_give(
        take,
        glyphs,
        i,
        axes,
        locations,
        Err(why),
    )
}

/// `e` may be why glyph `i` is the first without deltas.
pub open spec fn stops_at_origin<
    D: Fn(&Vec<i16>) -> Result<Vec<(VariationRegion, bool, i16)>, String>,
>(
    take: D,
    glyphs: Seq<OriginGlyph>,
    i: int,
    axes: Seq<Tag>,
    locations: Seq<Location>,
    e: Error,
) -> bool {
    &&& is_bad_origin(take, glyphs, i, axes, locations, e)
    &&& forall|k: int|
        0 <= k < i ==> #[trigger] has_origin_deltas(take, glyphs, k, axes, locations)
}

/// The vertical origin deltas of the glyphs of a font, in glyph order.
#[derive(Debug)]
pub struct VerticalOriginDeltas {
    pub deltas: Vec<Vec<(VariationRegion, i16)>>,
}

impl VerticalOriginDeltas {
    /// The vertical origin deltas of every glyph, or why the first glyph
    /// without any has none.
    ///
    /// Every master takes part for every glyph, so `take`, which takes deltas
    /// through the model over `locations`, is always the right model. Each
    /// delta comes with whether its region is the default one, which is left
    /// out.
    pub fn new<D: Fn(&Vec<i16>) -> Result<Vec<(VariationRegion, bool, i16)>, String>>(
        glyphs: &Vec<OriginGlyph>,
        axes: &Vec<Tag>,
        locations: &Vec<Location>,
        take: &D,
    ) -> (r: Result<VerticalOriginDeltas, Error>)
        requires
            glyphs@.len() > 0 && is_dense_notdef(glyphs@[0], 0)
                ==> glyphs@[0].default_origins@.len() == locations@.len(),
            forall|row: Vec<i16>| call_requires(*take, (&row,)),
        ensures
            match r {
                Ok(found) => {
                    &&& found.deltas@.len() == glyphs@.len()
                    &&& forall|i: int|
                        0 <= i < glyphs@.len() ==> are_origin_deltas(
                            *take,
                            glyphs@,
                            i,
                            axes@,
                            locations@,
                            region_deltas((#[trigger] found.deltas@[i])@),
                        )
                },
                Err(e) => exists|i: int|
                    0 <= i < glyphs@.len() && #[trigger] stops_at_origin(
                        *take,
                        glyphs@,
                        i,
                        axes@,
                        locations@,
                        e,
                    ),
            },
    {
        let rows: Vec<Vec<i16>> = dense_origins(glyphs, axes, locations);
        let mut deltas: Vec<Vec<(VariationRegion, i16)>> = Vec::new();
        let mut i: usize = 0;
        while i < glyphs.len()
            invariant
                i <= glyphs@.len(),
                rows@.len() == glyphs@.len(),
                forall|row: Vec<i16>| call_requires(*take, (&row,)),
                forall|k: int|
                    0 <= k < rows@.len() ==> is_dense_row(
                        glyphs@,
                        k,
                        axes@,
                        locations@,
                        (#[trigger] rows@[k])@,
                    ),
                deltas@.len() == i,
                forall|k: int|
                    0 <= k < i ==> are_origin_deltas(
                        *take,
                        glyphs@,
                        k,
                        axes@,
                        locations@,
                        region_deltas((#[trigger] deltas@[k])@),
                    ),
            decreases glyphs.len() - i,
        {
            assert(is_dense_row(glyphs@, i as int, axes@, locations@, rows@[i as int]@));
            let made: Result<Vec<(VariationRegion, bool, i16)>, String> = take(&rows[i]);
            assert(origins_give(*take, glyphs@, i as int, axes@, locations@, made));
            match made {
                Ok(made) => {
                    deltas.push(without_default(&made));
                    assert(origins_give(*take, glyphs@, i as int, axes@, locations@, Ok(made)));
                },
                Err(why) => {
                    let e = Error::GlyphDeltaError(glyphs[i].name.clone(), why);
                    assert(is_bad_origin(*take, glyphs@, i as int, axes@, locations@, e));
                    assert forall|k: int| 0 <= k < i implies #[trigger] has_origin_deltas(
                        *take,
                        glyphs@,
                        k,
                        axes@,
                        locations@,
                    ) by {
                        assert(are_origin_deltas(
                            *take,
                            glyphs@,
                            k,
                            axes@,
                            locations@,
                            region_deltas(deltas@[k]@),
                        ));
                    }
                    assert(stops_at_origin(*take, glyphs@, i as int, axes@, locations@, e));
                    return Err(e);
                },
            }
            i = i + 1;
        }
        Ok(VerticalOriginDeltas { deltas })
    }
}

proof fn lemma_tally_is_a_count(values: Seq<i16>, v: i16)
    ensures
        tally(values, v) == values.to_multiset().count(v),
    decreases values.len(),
{
    broadcast use vstd::seq_lib::group_to_multiset_ensures;

    if values.len() > 0 {
        lemma_tally_is_a_count(values.drop_last(), v);
        assert(values =~= values.drop_last().push(values.last()));
    } else {
        assert(values =~= Seq::<i16>::empty());
    }
}

/// No value occurs more often than the most common one, and each that is seen
/// before it occurs less often.
pub proof fn law_the_most_common_value_occurs_most_often(values: Seq<i16>, v: i16, j: int)
    requires
        is_most_common(values, v),
        0 <= j < values.len(),
    ensures
        values.contains(v),
        values.to_multiset().count(values[j]) <= values.to_multiset().count(v),
        (forall|i: int| 0 <= i <= j ==> #[trigger] values[i] != v) ==> values.to_multiset().count(
            values[j],
        ) < values.to_multiset().count(v),
{
    lemma_tally_is_a_count(values, v);
    lemma_tally_is_a_count(values, values[j]);
    let i = choose|i: int|
        #![trigger values[i]]
        {
            &&& 0 <= i < values.len()
            &&& values[i] == v
            &&& forall|j: int|
                0 <= j < values.len() ==> tally(values, #[trigger] values[j]) <= tally(values, v)
            &&& forall|j: int| 0 <= j < i ==> tally(values, #[trigger] values[j]) < tally(values, v)
        };
    assert(values[i] == v);
    assert(tally(values, values[j]) <= tally(values, v));
}

/// What the sources of a glyph state at a place is what the last of them that
/// is there states, once restricted to the axes of the font, and nothing
/// exactly if none is there.
pub proof fn law_the_last_source_at_a_place_counts<V>(
    sources: Seq<(Location, V)>,
    axes: Seq<Tag>,
    at: Map<Tag, Real>,
    k: int,
)
    ensures
        stated(sources, axes, at) is None <==> forall|i: int|
            0 <= i < sources.len() ==> (#[trigger] sources[i]).0@.restrict(axes.to_set()) != at,
        0 <= k < sources.len() && sources[k].0@.restrict(axes.to_set()) == at && (forall|i: int|
            k < i < sources.len() ==> (#[trigger] sources[i]).0@.restrict(axes.to_set()) != at)
            ==> stated(sources, axes, at) == Some(sources[k].1),
    decreases sources.len(),
{
    if sources.len() > 0 {
        let rest = sources.drop_last();
        let last = sources.len() - 1;
        law_the_last_source_at_a_place_counts(rest, axes, at, k);
        assert(sources[last] == sources.last());
        if forall|i: int|
            0 <= i < rest.len() ==> (#[trigger] rest[i]).0@.restrict(axes.to_set()) != at {
            assert forall|i: int| 0 <= i < last implies (#[trigger] sources[i]).0@.restrict(
                axes.to_set(),
            ) != at by {
                assert(rest[i] == sources[i]);
            }
        } else {
            let i = choose|i: int|
                0 <= i < rest.len() && (#[trigger] rest[i]).0@.restrict(axes.to_set()) == at;
            assert(sources[i] == rest[i]);
        }
        if 0 <= k < last {
            assert(rest[k] == sources[k]);
            if forall|i: int|
                k < i < sources.len() ==> (#[trigger] sources[i]).0@.restrict(axes.to_set()) != at {
                assert(sources[last].0@.restrict(axes.to_set()) != at);
                assert forall|i: int| k < i < rest.len() implies (#[trigger] rest[i]).0@.restrict(
                    axes.to_set(),
                ) != at by {
                    assert(rest[i] == sources[i]);
                }
            }
        }
    }
}

/// A glyph that a master has counts with its own origin there, and one that it
/// does not have with the most common origin of those that it has, or zero if
/// it has none.
pub proof fn law_missing_origins_are_the_most_common(
    glyphs: Seq<OriginGlyph>,
    i: int,
    axes: Seq<Tag>,
    locations: Seq<Location>,
    l: int,
    origin: i16,
    k: int,
)
    requires
        0 <= i < glyphs.len(),
        0 <= l < locations.len(),
        i != 0 || glyphs[i].name@ != ".notdef"@ || glyphs[i].sources@.len() != 1,
        is_dense_origin(glyphs, i, axes, locations, l, origin),
    ensures
        0 <= k < glyphs[i].sources@.len() && glyphs[i].sources@[k].0@.restrict(axes.to_set())
            == locations[l]@ && (forall|s: int|
            k < s < glyphs[i].sources@.len() ==> (#[trigger] glyphs[i].sources@[s]).0@.restrict(
                axes.to_set(),
            ) != locations[l]@) ==> origin == glyphs[i].sources@[k].1,
        (forall|s: int|
            0 <= s < glyphs[i].sources@.len() ==> (#[trigger] glyphs[i].sources@[s]).0@.restrict(
                axes.to_set(),
            ) != locations[l]@) ==> {
            let there = origins_at(glyphs, glyphs.len() as int, axes, locations, l);
            &&& there.len() > 0 ==> is_most_common(there, origin)
            &&& there.len() == 0 ==> origin == 0
        },
{
    law_the_last_source_at_a_place_counts(glyphs[i].sources@, axes, locations[l]@, k);
}

/// A `.notdef` at the front that has a single source counts as drawn in every
/// master, with the origin that it would have there.
pub proof fn law_a_lone_notdef_has_an_origin_everywhere(
    glyphs: Seq<OriginGlyph>,
    axes: Seq<Tag>,
    locations: Seq<Location>,
    l: int,
    origin: i16,
)
    requires
        glyphs.len() > 0,
        0 <= l < locations.len(),
        glyphs[0].name@ == ".notdef"@,
        glyphs[0].sources@.len() == 1,
        is_dense_origin(glyphs, 0, axes, locations, l, origin),
    ensures
        origin == glyphs[0].default_origins@[l],
{
}

/// The origins that a master has are those of its glyphs, in glyph order.
pub proof fn law_origins_are_gathered_in_glyph_order(
    glyphs: Seq<OriginGlyph>,
    n: int,
    axes: Seq<Tag>,
    locations: Seq<Location>,
    l: int,
)
    requires
        0 < n < glyphs.len(),
    ensures
        origins_at(glyphs, 0, axes, locations, l).len() == 0,
        origins_at(glyphs, n + 1, axes, locations, l) == match stated(
            glyphs[n].sources@,
            axes,
            locations[l]@,
        ) {
            Some(origin) => origins_at(glyphs, n, axes, locations, l).push(origin),
            None => origins_at(glyphs, n, axes, locations, l),
        },
{
}

/// The deltas that are recorded are those of every region but the default one,
/// in order.
pub proof fn law_only_the_default_region_is_left_out(
    deltas: Seq<(VariationRegion, bool, i16)>,
    region: VariationRegion,
    is_default: bool,
    delta: i16,
)
    ensures
        varying(Seq::empty()).len() == 0,
        varying(deltas.push((region, is_default, delta))) == if is_default {
            varying(deltas)
        } else {
            varying(deltas).push((region@, delta))
        },
{
    assert(deltas.push((region, is_default, delta)).drop_last() =~= deltas);
}

proof fn lemma_one_place_is_seen_once<V>(sources: Seq<(Location, V)>, axes: Seq<Tag>)
    requires
        sources.len() > 0,
    ensures
        source_places(sources, axes).len() >= 1,
        (forall|i: int|
            0 <= i < sources.len() ==> (#[trigger] sources[i]).0@.restrict(axes.to_set())
                == sources[0].0@.restrict(axes.to_set())) ==> source_places(sources, axes).len()
            == 1,
        forall|i: int|
            0 <= i < sources.len() && (#[trigger] sources[i]).0@.restrict(axes.to_set())
                != sources[0].0@.restrict(axes.to_set()) ==> source_places(sources, axes).len() > 1,
{
    let listed = sources.map_values(|s: (Location, V)| s.0@.restrict(axes.to_set()));
    let all = lookup::first_seen(listed);
    lookup::lemma_first_seen_contains(listed);
    assert(all.contains(listed[0]));
    if forall|i: int|
        0 <= i < sources.len() ==> (#[trigger] sources[i]).0@.restrict(axes.to_set())
            == sources[0].0@.restrict(axes.to_set()) {
        if all.len() > 1 {
            assert(listed.contains(all[0]));
            assert(listed.contains(all[1]));
            let a = choose|a: int| 0 <= a < listed.len() && listed[a] == all[0];
            let b = choose|b: int| 0 <= b < listed.len() && listed[b] == all[1];
            assert(sources[a].0@.restrict(axes.to_set()) == sources[b].0@.restrict(axes.to_set()));
        }
    }
    assert forall|i: int|
        0 <= i < sources.len() && (#[trigger] sources[i]).0@.restrict(axes.to_set())
            != sources[0].0@.restrict(axes.to_set()) implies all.len() > 1 by {
        assert(all.contains(listed[i]));
        let a = choose|a: int| 0 <= a < all.len() && all[a] == listed[0];
        let b = choose|b: int| 0 <= b < all.len() && all[b] == listed[i];
        assert(a != b);
    }
}

/// A glyph whose sources are all at one place has no deltas, unless it is a
/// `.notdef` at the front of the font.
pub proof fn law_glyphs_at_one_place_do_not_vary<
    D: Fn(&Vec<Location>, &Vec<(Location, Real)>) -> Result<
        Vec<(VariationRegion, bool, i16)>,
        String,
    >,
>(
    take: D,
    before: AdvanceDeltas,
    name: String,
    sources: Seq<(Location, Real)>,
    after: AdvanceDeltas,
    r: Result<(), Error>,
)
    requires
        adds_to(take, before, name, sources, after, r),
        sources.len() > 0,
        forall|i: int|
            0 <= i < sources.len() ==> (#[trigger] sources[i]).0@.restrict(before.axes@.to_set())
                == sources[0].0@.restrict(before.axes@.to_set()),
        before.deltas@.len() > 0 || name@ != ".notdef"@,
    ensures
        r is Ok,
        after.models == before.models,
        after.deltas@.len() == before.deltas@.len() + 1,
        after.deltas@.last()@.len() == 0,
        forall|i: int|
            0 <= i < before.deltas@.len() ==> #[trigger] after.deltas@[i] == before.deltas@[i],
{
    lemma_one_place_is_seen_once(sources, before.axes@);
    assert(region_deltas(after.deltas@.last()@).len() == 0);
}

/// A glyph whose sources are at several places varies: its advances are taken
/// once at each of those places, from the last source there, through the first
/// set of locations that are the same places.
pub proof fn law_glyphs_at_several_places_vary(
    before: AdvanceDeltas,
    name: Seq<char>,
    sources: Seq<(Location, Real)>,
    after: AdvanceDeltas,
    step: AdvanceStep,
    i: int,
    k: int,
)
    requires
        is_step(before, name, sources, after, step),
        0 <= i < sources.len(),
        sources[i].0@.restrict(before.axes@.to_set()) != sources[0].0@.restrict(
            before.axes@.to_set(),
        ),
        0 <= k < sources.len(),
        forall|s: int|
            k < s < sources.len() ==> (#[trigger] sources[s]).0@.restrict(before.axes@.to_set())
                != sources[k].0@.restrict(before.axes@.to_set()),
    ensures
        step matches AdvanceStep::Deltas { model, advances } && model < after.models@.len() && (
        exists|a: int|
            0 <= a < advances@.len() && (#[trigger] advances@[a]).0@ == sources[k].0@.restrict(
                before.axes@.to_set(),
            ) && advances@[a].1 == sources[k].1) && forall|a: int|
            0 <= a < advances@.len() ==> coords::places(after.models@[model as int]@).contains(
                (#[trigger] advances@[a]).0@,
            ),
{
    let axes = before.axes@;
    lemma_one_place_is_seen_once(sources, axes);
    let listed = sources.map_values(|s: (Location, Real)| s.0@.restrict(axes.to_set()));
    lookup::lemma_first_seen_contains(listed);
    let at = sources[k].0@.restrict(axes.to_set());
    assert(listed[k] == at);
    assert(lookup::first_seen(listed).contains(listed[k]));
    law_the_last_source_at_a_place_counts(sources, axes, at, k);
    if let AdvanceStep::Deltas { model, advances } = step {
        let wanted = advance_places(before, name, sources);
        assert(wanted == source_places(sources, axes));
        assert(wanted.contains(at));
        let a = choose|a: int| 0 <= a < wanted.len() && wanted[a] == at;
        let entries = entry_places(advances@);
        assert(entries == wanted);
        assert(entries.len() == advances@.len());
        assert(entries[a] == advances@[a].0@);
        assert(advances@[a].1 == advance_at(before, sources, advances@[a].0@));
        assert forall|b: int| 0 <= b < advances@.len() implies coords::places(
            after.models@[model as int]@,
        ).contains((#[trigger] advances@[b]).0@) by {
            assert(entries[b] == advances@[b].0@);
            assert(wanted[b] == advances@[b].0@);
        }
    }
}

/// Sets of locations that a model is needed for are told apart by where they
/// are: a glyph gets the first that is where it is, and a new one only if there
/// is none.
pub proof fn law_models_are_shared_by_place(
    before: AdvanceDeltas,
    name: Seq<char>,
    sources: Seq<(Location, Real)>,
    after: AdvanceDeltas,
    model: int,
    advances: Seq<(Location, Real)>,
    i: int,
)
    requires
        is_taken_through(before, name, sources, after, model, advances),
        0 <= i < before.models@.len(),
        same_places(
            coords::places(before.models@[i]@),
            advances.map_values(|e: (Location, Real)| e.0@),
        ),
    ensures
        model <= i,
        after.models@.len() == before.models@.len(),
{
    assert(advances.map_values(|e: (Location, Real)| e.0@) =~= entry_places(advances));
    assert(after.models@[i] == before.models@[i]);
}

/// A place is the default if it is at zero on each of its axes.
pub proof fn law_the_default_is_at_zero_everywhere(at: Map<Tag, Real>, tag: Tag, pos: Real)
    ensures
        all_zero(Map::empty()),
        all_zero(at.insert(tag, pos)) <==> pos == 0 && all_zero(at.remove(tag)),
{
    let more = at.insert(tag, pos);
    let rest = at.remove(tag);
    if all_zero(more) {
        assert(more.contains_key(tag));
        assert forall|t: Tag| #[trigger] rest.contains_key(t) implies rest[t] == 0 by {
            assert(more.contains_key(t));
        }
    }
    if pos == 0 && all_zero(rest) {
        assert forall|t: Tag| #[trigger] more.contains_key(t) implies more[t] == 0 by {
            if t != tag {
                assert(rest.contains_key(t));
            }
        }
    }
}

/// The deltas of a glyph are taken of its origins at all locations, in order,
/// and all of them but the default's are kept.
pub proof fn law_origin_deltas_are_taken_of_whole_rows<
    D: Fn(&Vec<i16>) -> Result<Vec<(VariationRegion, bool, i16)>, String>,
>(
    take: D,
    glyphs: Seq<OriginGlyph>,
    i: int,
    axes: Seq<Tag>,
    locations: Seq<Location>,
    deltas: Seq<(Seq<(Tag, Tent)>, i16)>,
) -> (r: (Vec<i16>, Vec<(VariationRegion, bool, i16)>))
    requires
        are_origin_deltas(take, glyphs, i, axes, locations, deltas),
    ensures
        r.0@.len() == locations.len(),
        forall|l: int|
            0 <= l < locations.len() ==> is_dense_origin(
                glyphs,
                i,
                axes,
                locations,
                l,
                #[trigger] r.0@[l],
            ),
        call_ensures(take, (&r.0,), Ok(r.1)),
        deltas == varying(r.1@),
{
    let made = choose|made: Vec<(VariationRegion, bool, i16)>| #[trigger]
        origins_give(take, glyphs, i, axes, locations, Ok(made)) && deltas == varying(made@);
    let row = choose|row: Vec<i16>|
        is_dense_row(glyphs, i, axes, locations, row@) && #[trigger] call_ensures(
            take,
            (&row,),
            Ok(made),
        );
    (row, made)
}

/// The first glyph whose deltas cannot be taken is named, with the reason.
pub proof fn law_the_first_bad_origin_is_named<
    D: Fn(&Vec<i16>) -> Result<Vec<(VariationRegion, bool, i16)>, String>,
>(
    take: D,
    glyphs: Seq<OriginGlyph>,
    i: int,
    axes: Seq<Tag>,
    locations: Seq<Location>,
    e: Error,
    k: int,
) -> (row: Vec<i16>)
    requires
        stops_at_origin(take, glyphs, i, axes, locations, e),
    ensures
        e matches Error::GlyphDeltaError(name, why) && name@ == glyphs[i].name@ && call_ensures(
            take,
            (&row,),
            Err(why),
        ),
        row@.len() == locations.len(),
        forall|l: int|
            0 <= l < locations.len() ==> is_dense_origin(
                glyphs,
                i,
                axes,
                locations,
                l,
                #[trigger] row@[l],
            ),
        0 <= k < i ==> has_origin_deltas(take, glyphs, k, axes, locations),
{
    let why = e->GlyphDeltaError_1;
    choose|row: Vec<i16>|
        is_dense_row(glyphs, i, axes, locations, row@) && #[trigger] call_ensures(
            take,
            (&row,),
            Err(why),
        )
}

/// Two lists name the same places if each place of either is in the other.
pub proof fn law_lists_of_the_same_places(
    a: Seq<Map<Tag, Real>>,
    b: Seq<Map<Tag, Real>>,
    at: Map<Tag, Real>,
)
    ensures
        same_places(a, b) ==> (a.contains(at) <==> b.contains(at)),
        same_places(a, a),
        same_places(a, b) ==> same_places(b, a),
{
    if same_places(a, b) {
        if a.contains(at) {
            let i = choose|i: int| 0 <= i < a.len() && a[i] == at;
            assert(b.contains(a[i]));
        }
        if b.contains(at) {
            let i = choose|i: int| 0 <= i < b.len() && b[i] == at;
            assert(a.contains(b[i]));
        }
    }
}

} // verus!
