//! The PostScript settings of masters reduced to those of one location.
//!
//! Every number interpolates, but a term that is missing has rules of its own:
//! a master that doesn't state a number drops out of the sum, and two masters
//! whose lists differ in length wipe the list out.

use crate::cff2;
use crate::coords;
use crate::coords::{Location, Real, Tag};
use crate::lookup;
use crate::numeric;
use crate::static_metadata::{PostscriptSettings, StaticMetadata};
use vstd::prelude::*;

verus! {

/// A list of the settings.
#[derive(Debug, Clone, Copy, PartialEq, Eq, Structural)]
pub enum ListKey {
    BlueValues,
    OtherBlues,
    FamilyBlues,
    FamilyOtherBlues,
    StemSnapH,
    StemSnapV,
}

/// A number of the settings.
#[derive(Debug, Clone, Copy, PartialEq, Eq, Structural)]
pub enum NumberKey {
    BlueScale,
    BlueShift,
    BlueFuzz,
    Os2WeightClass,
    DefaultWidthX,
    NominalWidthX,
}

pub open spec fn list_of(ps: PostscriptSettings, key: ListKey) -> Seq<Real> {
    match key {
        ListKey::BlueValues => ps.blue_values@,
        ListKey::OtherBlues => ps.other_blues@,
        ListKey::FamilyBlues => ps.family_blues@,
        ListKey::FamilyOtherBlues => ps.family_other_blues@,
        ListKey::StemSnapH => ps.stem_snap_h@,
        ListKey::StemSnapV => ps.stem_snap_v@,
    }
}

pub open spec fn number_of(ps: PostscriptSettings, key: NumberKey) -> Option<Real> {
    match key {
        NumberKey::BlueScale => ps.blue_scale,
        NumberKey::BlueShift => ps.blue_shift,
        NumberKey::BlueFuzz => ps.blue_fuzz,
        NumberKey::Os2WeightClass => ps.os2_weight_class,
        NumberKey::DefaultWidthX => ps.default_width_x,
        NumberKey::NominalWidthX => ps.nominal_width_x,
    }
}

/// The masters that have a weight other than zero, with their weights.
pub open spec fn contributors(
    postscript: Seq<(Location, PostscriptSettings)>,
    axes: Seq<Tag>,
    weights: Seq<(Map<Tag, Real>, Real)>,
) -> Seq<(int, Real)>
    decreases weights.len(),
{
    if weights.len() == 0 {
        seq![]
    } else {
        let rest = contributors(postscript, axes, weights.drop_last());
        let (at, weight) = weights.last();
        match cff2::last_fitted(postscript, axes, at) {
            Some(i) => if weight != 0 {
                rest.push((i, weight))
            } else {
                rest
            },
            None => rest,
        }
    }
}

/// The terms of a number: what each contributing master states, if it states
/// any, and its weight.
pub open spec fn number_terms(
    postscript: Seq<(Location, PostscriptSettings)>,
    contributing: Seq<(int, Real)>,
    key: NumberKey,
) -> Seq<(Real, Real)>
    decreases contributing.len(),
{
    if contributing.len() == 0 {
        seq![]
    } else {
        let rest = number_terms(postscript, contributing.drop_last(), key);
        let (i, weight) = contributing.last();
        match number_of(postscript[i].1, key) {
            Some(v) => rest.push((v, weight)),
            None => rest,
        }
    }
}

/// The terms of each element of a list after one more master.
///
/// A master that states nothing changes nothing. A length mismatch wipes the
/// list out, and the next master can bring it back.
pub open spec fn with_list(
    terms: Option<Seq<Seq<(Real, Real)>>>,
    values: Seq<Real>,
    weight: Real,
) -> Option<Seq<Seq<(Real, Real)>>> {
    if values.len() == 0 {
        terms
    } else {
        match terms {
            None => Some(Seq::new(values.len(), |k: int| seq![(values[k], weight)])),
            Some(terms) => if terms.len() == values.len() {
                Some(Seq::new(values.len(), |k: int| terms[k].push((values[k], weight))))
            } else {
                None
            },
        }
    }
}

/// The terms of each element of a list, master by master.
pub open spec fn list_terms(
    postscript: Seq<(Location, PostscriptSettings)>,
    contributing: Seq<(int, Real)>,
    key: ListKey,
) -> Option<Seq<Seq<(Real, Real)>>>
    decreases contributing.len(),
{
    if contributing.len() == 0 {
        None
    } else {
        let (i, weight) = contributing.last();
        with_list(
            list_terms(postscript, contributing.drop_last(), key),
            list_of(postscript[i].1, key),
            weight,
        )
    }
}

/// A number at the pin: the sum of its terms, or nothing without any.
pub open spec fn pinned_number<W: Fn(&Vec<(Real, Real)>) -> Real>(
    w: W,
    postscript: Seq<(Location, PostscriptSettings)>,
    contributing: Seq<(int, Real)>,
    key: NumberKey,
) -> Option<Real> {
    let terms = number_terms(postscript, contributing, key);
    if terms.len() == 0 {
        None
    } else {
        Some(numeric::sum_of(w, terms))
    }
}

/// A list at the pin: the sum of each element's terms, or an empty list.
pub open spec fn pinned_list<W: Fn(&Vec<(Real, Real)>) -> Real>(
    w: W,
    postscript: Seq<(Location, PostscriptSettings)>,
    contributing: Seq<(int, Real)>,
    key: ListKey,
) -> Seq<Real> {
    match list_terms(postscript, contributing, key) {
        Some(terms) => terms.map_values(|t: Seq<(Real, Real)>| numeric::sum_of(w, t)),
        None => seq![],
    }
}

/// The name of a weight class in hundreds, clamped to 1 and 9.
pub open spec fn weight_name(hundreds: int) -> Seq<char> {
    if hundreds <= 1 {
        "Thin"@
    } else if hundreds == 2 {
        "Extra-light"@
    } else if hundreds == 3 {
        "Light"@
    } else if hundreds == 4 {
        "Normal"@
    } else if hundreds == 5 {
        "Medium"@
    } else if hundreds == 6 {
        "Semi-bold"@
    } else if hundreds == 7 {
        "Bold"@
    } else if hundreds == 8 {
        "Extra-bold"@
    } else {
        "Black"@
    }
}

/// The CFF `Weight` that a weight class implies. `hundreds` rounds it to the
/// nearest hundred, halves away from zero, and counts those.
pub fn postscript_weight_name(hundreds: Option<i32>) -> (r: Option<String>)
    ensures
        match (hundreds, r) {
            (Some(h), Some(name)) => name@ == weight_name(h as int),
            (None, None) => true,
            _ => false,
        },
{
    match hundreds {
        None => None,
        Some(h) => {
            let name: &str = if h <= 1 {
                "Thin"
            } else if h == 2 {
                "Extra-light"
            } else if h == 3 {
                "Light"
            } else if h == 4 {
                "Normal"
            } else if h == 5 {
                "Medium"
            } else if h == 6 {
                "Semi-bold"
            } else if h == 7 {
                "Bold"
            } else if h == 8 {
                "Extra-bold"
            } else {
                "Black"
            };
            Some(name.to_string())
        },
    }
}

/// Where settings are once they are restricted to `axes`, each place once.
pub open spec fn master_places(
    postscript: Seq<(Location, PostscriptSettings)>,
    axes: Seq<Tag>,
) -> Seq<Map<Tag, Real>> {
    lookup::first_seen(
        postscript.map_values(
            |p: (Location, PostscriptSettings)| coords::fitted(p.0@, axes),
        ),
    )
}

/// Whether there is one master, and the pin is at the default location.
pub open spec fn is_single_master_at_default(
    static_metadata: StaticMetadata,
    pin: Map<Tag, Real>,
) -> bool {
    let axes = coords::tags_of(static_metadata.axes@);
    master_places(static_metadata.postscript@, axes).len() == 1 && coords::fitted(pin, axes)
        == coords::fitted(static_metadata.home(), axes)
}

/// The settings at a pin.
///
/// With one master and a pin at the default, everything that master states.
/// Otherwise every number and list is interpolated, `force_bold` is the default
/// master's, and the full name is lost. The weight name is derived from the
/// interpolated weight class, unless the pin is on a master.
pub open spec fn pins_to<
    S: Fn(&Vec<Location>, &Location) -> Vec<(Location, Real)>,
    W: Fn(&Vec<(Real, Real)>) -> Real,
    H: Fn(Real) -> i32,
>(
    s: S,
    w: W,
    h: H,
    static_metadata: StaticMetadata,
    pin: Map<Tag, Real>,
    r: PostscriptSettings,
) -> bool {
    let ps = static_metadata.postscript@;
    let axes = coords::tags_of(static_metadata.axes@);
    if is_single_master_at_default(static_metadata, pin) {
        r.same_as(&ps.last().1)
    } else {
        let weights = numeric::scalars_of(s, master_places(ps, axes), pin);
        let c = contributors(ps, axes, weights);
        let on_master = master_places(ps, axes).contains(coords::fitted(pin, axes));
        &&& r.blue_values@ == pinned_list(w, ps, c, ListKey::BlueValues)
        &&& r.other_blues@ == pinned_list(w, ps, c, ListKey::OtherBlues)
        &&& r.family_blues@ == pinned_list(w, ps, c, ListKey::FamilyBlues)
        &&& r.family_other_blues@ == pinned_list(w, ps, c, ListKey::FamilyOtherBlues)
        &&& r.stem_snap_h@ == pinned_list(w, ps, c, ListKey::StemSnapH)
        &&& r.stem_snap_v@ == pinned_list(w, ps, c, ListKey::StemSnapV)
        &&& r.blue_scale == pinned_number(w, ps, c, NumberKey::BlueScale)
        &&& r.blue_shift == pinned_number(w, ps, c, NumberKey::BlueShift)
        &&& r.blue_fuzz == pinned_number(w, ps, c, NumberKey::BlueFuzz)
        &&& r.os2_weight_class == pinned_number(w, ps, c, NumberKey::Os2WeightClass)
        &&& r.default_width_x == pinned_number(w, ps, c, NumberKey::DefaultWidthX)
        &&& r.nominal_width_x == pinned_number(w, ps, c, NumberKey::NominalWidthX)
        &&& r.force_bold == (match coords::placed(ps, static_metadata.home()) {
            Some(i) => ps[i].1.force_bold,
            None => None,
        })
        &&& r.full_name is None
        &&& match r.os2_weight_class {
            Some(class) => if on_master {
                r.weight_name is None
            } else {
                r.weight_name matches Some(name) && name@ == weight_name(
                    numeric::image(h, class) as int,
                )
            },
            None => r.weight_name is None,
        }
    }
}

/// Indices as numbers.
spec fn indexed(list: Seq<(usize, Real)>) -> Seq<(int, Real)> {
    list.map_values(|c: (usize, Real)| (c.0 as int, c.1))
}

fn find_contributors(
    postscript: &Vec<(Location, PostscriptSettings)>,
    axes: &Vec<Tag>,
    weights: &Vec<(Location, Real)>,
) -> (r: Vec<(usize, Real)>)
    ensures
        indexed(r@) == contributors(postscript@, axes@, numeric::weighted(weights@)),
        forall|i: int| 0 <= i < r@.len() ==> (#[trigger] r@[i]).0 < postscript@.len(),
{
    let ghost all = numeric::weighted(weights@);
    let mut r: Vec<(usize, Real)> = Vec::new();
    let mut i: usize = 0;
    while i < weights.len()
        invariant
            i <= weights@.len(),
            all == numeric::weighted(weights@),
            indexed(r@) =~= contributors(postscript@, axes@, all.take(i as int)),
            forall|k: int| 0 <= k < r@.len() ==> (#[trigger] r@[k]).0 < postscript@.len(),
        decreases weights.len() - i,
    {
        assert(all.take(i + 1).drop_last() =~= all.take(i as int));
        assert(all.take(i + 1).last() == (weights@[i as int].0@, weights@[i as int].1));
        if weights[i].1 != 0 {
            if let Some(k) = cff2::find_last_fitted(postscript, axes, &weights[i].0) {
                let ghost before = r@;
                r.push((k, weights[i].1));
                assert(indexed(r@) =~= indexed(before).push((k as int, weights@[i as int].1)));
            }
        }
        i = i + 1;
    }
    assert(all.take(i as int) =~= all);
    r
}

fn places_of(postscript: &Vec<(Location, PostscriptSettings)>, axes: &Vec<Tag>) -> (r: Vec<
    Location,
>)
    ensures
        coords::places(r@) == master_places(postscript@, axes@),
{
    let ghost all = postscript@.map_values(
        |p: (Location, PostscriptSettings)| coords::fitted(p.0@, axes@),
    );
    let mut r: Vec<Location> = Vec::new();
    let mut i: usize = 0;
    assert(coords::places(r@) =~= lookup::first_seen(all.take(0)));
    while i < postscript.len()
        invariant
            i <= postscript@.len(),
            all == postscript@.map_values(
                |p: (Location, PostscriptSettings)| coords::fitted(p.0@, axes@),
            ),
            coords::places(r@) == lookup::first_seen(all.take(i as int)),
        decreases postscript.len() - i,
    {
        assert(all.take(i + 1).drop_last() =~= all.take(i as int));
        let at: Location = postscript[i].0.fit_to_axes(axes);
        assert(all.take(i + 1).last() == at@);
        match coords::find_place(&r, &at) {
            Some(k) => {
                assert(coords::places(r@)[k as int] == at@);
            },
            None => {
                let ghost before = r@;
                let ghost place = at@;
                assert(!coords::places(before).contains(place));
                r.push(at);
                assert(coords::places(r@) =~= coords::places(before).push(place));
            },
        }
        i = i + 1;
    }
    assert(all.take(i as int) =~= all);
    r
}

fn number_in(ps: &PostscriptSettings, key: NumberKey) -> (r: Option<Real>)
    ensures
        r == number_of(*ps, key),
{
    match key {
        NumberKey::BlueScale => ps.blue_scale,
        NumberKey::BlueShift => ps.blue_shift,
        NumberKey::BlueFuzz => ps.blue_fuzz,
        NumberKey::Os2WeightClass => ps.os2_weight_class,
        NumberKey::DefaultWidthX => ps.default_width_x,
        NumberKey::NominalWidthX => ps.nominal_width_x,
    }
}

fn list_in(ps: &PostscriptSettings, key: ListKey) -> (r: &Vec<Real>)
    ensures
        r@ == list_of(*ps, key),
{
    match key {
        ListKey::BlueValues => &ps.blue_values,
        ListKey::OtherBlues => &ps.other_blues,
        ListKey::FamilyBlues => &ps.family_blues,
        ListKey::FamilyOtherBlues => &ps.family_other_blues,
        ListKey::StemSnapH => &ps.stem_snap_h,
        ListKey::StemSnapV => &ps.stem_snap_v,
    }
}

fn pin_number<W: Fn(&Vec<(Real, Real)>) -> Real>(
    weigh: &W,
    postscript: &Vec<(Location, PostscriptSettings)>,
    contributing: &Vec<(usize, Real)>,
    key: NumberKey,
) -> (r: Option<Real>)
    requires
        numeric::is_sum(*weigh),
        forall|i: int|
            0 <= i < contributing@.len() ==> (#[trigger] contributing@[i]).0 < postscript@.len(),
    ensures
        r == pinned_number(*weigh, postscript@, indexed(contributing@), key),
{
    let ghost who = indexed(contributing@);
    let mut terms: Vec<(Real, Real)> = Vec::new();
    let mut c: usize = 0;
    while c < contributing.len()
        invariant
            c <= contributing@.len(),
            who == indexed(contributing@),
            forall|i: int|
                0 <= i < contributing@.len() ==> (#[trigger] contributing@[i]).0
                    < postscript@.len(),
            terms@ == number_terms(postscript@, who.take(c as int), key),
        decreases contributing.len() - c,
    {
        assert(who.take(c + 1).drop_last() =~= who.take(c as int));
        assert(who.take(c + 1).last() == (contributing@[c as int].0 as int, contributing@[c as int].1));
        if let Some(v) = number_in(&postscript[contributing[c].0].1, key) {
            terms.push((v, contributing[c].1));
        }
        c = c + 1;
    }
    assert(who.take(c as int) =~= who);
    if terms.len() == 0 {
        None
    } else {
        Some(numeric::sum(weigh, &terms))
    }
}

/// The terms of each element.
spec fn term_lists(terms: Seq<Vec<(Real, Real)>>) -> Seq<Seq<(Real, Real)>> {
    terms.map_values(|t: Vec<(Real, Real)>| t@)
}

spec fn optional_terms(terms: Option<Vec<Vec<(Real, Real)>>>) -> Option<Seq<Seq<(Real, Real)>>> {
    match terms {
        Some(terms) => Some(term_lists(terms@)),
        None => None,
    }
}

/// The terms of each element of a list after one more master.
fn accumulate_list(
    terms: Option<Vec<Vec<(Real, Real)>>>,
    values: &Vec<Real>,
    weight: Real,
) -> (r: Option<Vec<Vec<(Real, Real)>>>)
    ensures
        optional_terms(r) == with_list(optional_terms(terms), values@, weight),
{
    if values.len() == 0 {
        return terms;
    }
    match terms {
        None => {
            let mut out: Vec<Vec<(Real, Real)>> = Vec::new();
            let mut k: usize = 0;
            while k < values.len()
                invariant
                    k <= values@.len(),
                    out@.len() == k,
                    forall|j: int|
                        0 <= j < k ==> (#[trigger] out@[j])@ == seq![(values@[j], weight)],
                decreases values.len() - k,
            {
                let mut term: Vec<(Real, Real)> = Vec::new();
                term.push((values[k], weight));
                assert(term@ =~= seq![(values@[k as int], weight)]);
                out.push(term);
                k = k + 1;
            }
            assert(term_lists(out@) =~= Seq::new(
                values@.len(),
                |k: int| seq![(values@[k], weight)],
            ));
            Some(out)
        },
        Some(given) => {
            if given.len() != values.len() {
                return None;
            }
            let mut out: Vec<Vec<(Real, Real)>> = given;
            let mut k: usize = 0;
            while k < values.len()
                invariant
                    k <= values@.len(),
                    out@.len() == values@.len() == given@.len(),
                    forall|j: int|
                        0 <= j < k ==> (#[trigger] out@[j])@ == given@[j]@.push(
                            (values@[j], weight),
                        ),
                    forall|j: int| k <= j < out@.len() ==> #[trigger] out@[j] == given@[j],
                decreases values.len() - k,
            {
                out[k].push((values[k], weight));
                k = k + 1;
            }
            assert(term_lists(out@) =~= Seq::new(
                values@.len(),
                |k: int| term_lists(given@)[k].push((values@[k], weight)),
            ));
            Some(out)
        },
    }
}

fn pin_list<W: Fn(&Vec<(Real, Real)>) -> Real>(
    weigh: &W,
    postscript: &Vec<(Location, PostscriptSettings)>,
    contributing: &Vec<(usize, Real)>,
    key: ListKey,
) -> (r: Vec<Real>)
    requires
        numeric::is_sum(*weigh),
        forall|i: int|
            0 <= i < contributing@.len() ==> (#[trigger] contributing@[i]).0 < postscript@.len(),
    ensures
        r@ == pinned_list(*weigh, postscript@, indexed(contributing@), key),
{
    let ghost who = indexed(contributing@);
    let mut terms: Option<Vec<Vec<(Real, Real)>>> = None;
    let mut c: usize = 0;
    while c < contributing.len()
        invariant
            c <= contributing@.len(),
            who == indexed(contributing@),
            forall|i: int|
                0 <= i < contributing@.len() ==> (#[trigger] contributing@[i]).0
                    < postscript@.len(),
            optional_terms(terms) == list_terms(postscript@, who.take(c as int), key),
        decreases contributing.len() - c,
    {
        assert(who.take(c + 1).drop_last() =~= who.take(c as int));
        assert(who.take(c + 1).last() == (contributing@[c as int].0 as int, contributing@[c as int].1));
        terms = accumulate_list(
            terms,
            list_in(&postscript[contributing[c].0].1, key),
            contributing[c].1,
        );
        c = c + 1;
    }
    assert(who.take(c as int) =~= who);
    let mut out: Vec<Real> = Vec::new();
    match &terms {
        None => {},
        Some(given) => {
            let ghost all = term_lists(given@);
            let mut k: usize = 0;
            while k < given.len()
                invariant
                    k <= given@.len(),
                    numeric::is_sum(*weigh),
                    all == term_lists(given@),
                    out@ =~= all.map_values(
                        |t: Seq<(Real, Real)>| numeric::sum_of(*weigh, t),
                    ).take(k as int),
                decreases given.len() - k,
            {
                out.push(numeric::sum(weigh, &given[k]));
                k = k + 1;
            }
            assert(out@ =~= all.map_values(|t: Seq<(Real, Real)>| numeric::sum_of(*weigh, t)));
        },
    }
    out
}

/// The masters' PostScript settings reduced to the one set the pin wants.
///
/// `scalars` gives the weight of each master at a pin, `weigh` sums values by
/// weight, and `hundreds` rounds a weight class to the nearest hundred, halves
/// away from zero, and counts those.
pub fn pin_postscript<
    S: Fn(&Vec<Location>, &Location) -> Vec<(Location, Real)>,
    W: Fn(&Vec<(Real, Real)>) -> Real,
    H: Fn(Real) -> i32,
>(
    static_metadata: &StaticMetadata,
    pin: &Location,
    scalars: &S,
    weigh: &W,
    hundreds: &H,
) -> (r: PostscriptSettings)
    requires
        numeric::is_model(*scalars),
        numeric::is_sum(*weigh),
        numeric::is_map(*hundreds),
    ensures
        pins_to(*scalars, *weigh, *hundreds, *static_metadata, pin@, r),
{
    let postscript: &Vec<(Location, PostscriptSettings)> = &static_metadata.postscript;
    let axes: Vec<Tag> = coords::axis_order(&static_metadata.axes);
    let places: Vec<Location> = places_of(postscript, &axes);
    let here: Location = pin.fit_to_axes(&axes);
    let home: Location = static_metadata.default_location().fit_to_axes(&axes);
    proof {
        assert(coords::places(places@).len() == places@.len());
        let all = postscript@.map_values(
            |p: (Location, PostscriptSettings)| coords::fitted(p.0@, axes@),
        );
        if places@.len() == 1 {
            lookup::lemma_first_seen_contains(all);
            assert(all.contains(lookup::first_seen(all)[0]));
            assert(postscript@.len() > 0);
        }
    }
    if places.len() == 1 && here.same(&home) {
        return postscript[postscript.len() - 1].1.clone();
    }
    let weights: Vec<(Location, Real)> = numeric::scalars(scalars, &places, pin);
    let contributing: Vec<(usize, Real)> = find_contributors(postscript, &axes, &weights);
    let os2_weight_class: Option<Real> = pin_number(
        weigh,
        postscript,
        &contributing,
        NumberKey::Os2WeightClass,
    );
    let on_master: bool = match coords::find_place(&places, &here) {
        Some(i) => {
            assert(coords::places(places@)[i as int] == here@);
            true
        },
        None => {
            assert(!coords::places(places@).contains(here@)) by {
                assert(forall|j: int|
                    0 <= j < places@.len() ==> #[trigger] coords::places(places@)[j]
                        == places@[j]@);
            }
            false
        },
    };
    let weight_name: Option<String> = match os2_weight_class {
        Some(class) => if on_master {
            None
        } else {
            postscript_weight_name(Some(numeric::apply(hundreds, class)))
        },
        None => None,
    };
    PostscriptSettings {
        blue_values: pin_list(weigh, postscript, &contributing, ListKey::BlueValues),
        other_blues: pin_list(weigh, postscript, &contributing, ListKey::OtherBlues),
        family_blues: pin_list(weigh, postscript, &contributing, ListKey::FamilyBlues),
        family_other_blues: pin_list(
            weigh,
            postscript,
            &contributing,
            ListKey::FamilyOtherBlues,
        ),
        blue_scale: pin_number(weigh, postscript, &contributing, NumberKey::BlueScale),
        blue_shift: pin_number(weigh, postscript, &contributing, NumberKey::BlueShift),
        blue_fuzz: pin_number(weigh, postscript, &contributing, NumberKey::BlueFuzz),
        stem_snap_h: pin_list(weigh, postscript, &contributing, ListKey::StemSnapH),
        stem_snap_v: pin_list(weigh, postscript, &contributing, ListKey::StemSnapV),
        force_bold: static_metadata.postscript_default().force_bold,
        weight_name,
        os2_weight_class,
        full_name: None,
        default_width_x: pin_number(weigh, postscript, &contributing, NumberKey::DefaultWidthX),
        nominal_width_x: pin_number(weigh, postscript, &contributing, NumberKey::NominalWidthX),
    }
}

/// A master that states nothing drops out: the terms are those of the others.
pub proof fn law_absent_lists_change_nothing(
    terms: Option<Seq<Seq<(Real, Real)>>>,
    weight: Real,
)
    ensures
        with_list(terms, Seq::empty(), weight) == terms,
{
}

/// Two contributing masters whose lists differ in length leave no list.
pub proof fn law_length_mismatch_wipes_a_list_out(
    terms: Seq<Seq<(Real, Real)>>,
    values: Seq<Real>,
    weight: Real,
)
    requires
        values.len() > 0,
        terms.len() != values.len(),
    ensures
        with_list(Some(terms), values, weight) is None,
{
}

/// A list that was wiped out is brought back by the next master that states
/// one, whatever came before.
pub proof fn law_next_master_resurrects_a_list(values: Seq<Real>, weight: Real)
    requires
        values.len() > 0,
    ensures
        with_list(None, values, weight) is Some,
        with_list(None, values, weight)->0.len() == values.len(),
        forall|k: int|
            0 <= k < values.len() ==> #[trigger] with_list(None, values, weight)->0[k] == seq![
                (values[k], weight),
            ],
{
}

/// A single contributing master has one term for each value, so none of the
/// rules for two masters come into play.
pub proof fn law_one_contributor_has_one_term(
    postscript: Seq<(Location, PostscriptSettings)>,
    i: int,
    weight: Real,
    list: ListKey,
    number: NumberKey,
)
    requires
        0 <= i < postscript.len(),
    ensures
        number_of(postscript[i].1, number) matches Some(v) ==> number_terms(
            postscript,
            seq![(i, weight)],
            number,
        ) == seq![(v, weight)],
        number_of(postscript[i].1, number) is None ==> number_terms(
            postscript,
            seq![(i, weight)],
            number,
        ).len() == 0,
        list_of(postscript[i].1, list).len() > 0 ==> list_terms(
            postscript,
            seq![(i, weight)],
            list,
        ) == Some(
            Seq::new(
                list_of(postscript[i].1, list).len(),
                |k: int| seq![(list_of(postscript[i].1, list)[k], weight)],
            ),
        ),
{
    let one = seq![(i, weight)];
    reveal_with_fuel(number_terms, 2);
    reveal_with_fuel(list_terms, 2);
    assert(one.drop_last() =~= seq![]);
    assert(one.last() == (i, weight));
    assert(number_terms(postscript, one.drop_last(), number) =~= seq![]);
    if number_of(postscript[i].1, number) is Some {
        assert(number_terms(postscript, one, number) =~= seq![
            (number_of(postscript[i].1, number)->0, weight),
        ]);
    }
}

/// Where one master contributes, with a weight that changes no number, what it
/// states comes through as it is.
pub proof fn law_a_lone_master_comes_through<W: Fn(&Vec<(Real, Real)>) -> Real>(
    w: W,
    postscript: Seq<(Location, PostscriptSettings)>,
    i: int,
    one: Real,
    list: ListKey,
    number: NumberKey,
)
    requires
        0 <= i < postscript.len(),
        forall|x: Real| #[trigger] numeric::sum_of(w, seq![(x, one)]) == x,
    ensures
        pinned_number(w, postscript, seq![(i, one)], number) == number_of(postscript[i].1, number),
        pinned_list(w, postscript, seq![(i, one)], list) == list_of(postscript[i].1, list),
{
    let values = list_of(postscript[i].1, list);
    law_one_contributor_has_one_term(postscript, i, one, list, number);
    if values.len() > 0 {
        let terms = list_terms(postscript, seq![(i, one)], list)->0;
        assert forall|k: int| 0 <= k < values.len() implies numeric::sum_of(
            w,
            #[trigger] terms[k],
        ) == values[k] by {
            assert(terms[k] == seq![(values[k], one)]);
        }
    } else {
        reveal_with_fuel(list_terms, 2);
        assert(seq![(i, one)].drop_last() =~= seq![]);
    }
    assert(pinned_list(w, postscript, seq![(i, one)], list) =~= values);
}

/// A number is put together from what each contributing master states under its
/// own name, master by master, and one that states none adds nothing.
pub proof fn law_numbers_are_read_under_their_own_names(
    postscript: Seq<(Location, PostscriptSettings)>,
    contributing: Seq<(int, Real)>,
    i: int,
    weight: Real,
    key: NumberKey,
)
    requires
        0 <= i < postscript.len(),
    ensures
        number_terms(postscript, Seq::empty(), key).len() == 0,
        ({
            let so_far = number_terms(postscript, contributing, key);
            let stated = match key {
                NumberKey::BlueScale => postscript[i].1.blue_scale,
                NumberKey::BlueShift => postscript[i].1.blue_shift,
                NumberKey::BlueFuzz => postscript[i].1.blue_fuzz,
                NumberKey::Os2WeightClass => postscript[i].1.os2_weight_class,
                NumberKey::DefaultWidthX => postscript[i].1.default_width_x,
                NumberKey::NominalWidthX => postscript[i].1.nominal_width_x,
            };
            number_terms(postscript, contributing.push((i, weight)), key) == match stated {
                Some(v) => so_far.push((v, weight)),
                None => so_far,
            }
        }),
{
    assert(contributing.push((i, weight)).drop_last() =~= contributing);
}

/// A list is put together from what each contributing master lists under its
/// own name, master by master.
pub proof fn law_lists_are_read_under_their_own_names(
    postscript: Seq<(Location, PostscriptSettings)>,
    contributing: Seq<(int, Real)>,
    i: int,
    weight: Real,
    key: ListKey,
)
    requires
        0 <= i < postscript.len(),
    ensures
        list_terms(postscript, Seq::empty(), key) is None,
        ({
            let stated = match key {
                ListKey::BlueValues => postscript[i].1.blue_values@,
                ListKey::OtherBlues => postscript[i].1.other_blues@,
                ListKey::FamilyBlues => postscript[i].1.family_blues@,
                ListKey::FamilyOtherBlues => postscript[i].1.family_other_blues@,
                ListKey::StemSnapH => postscript[i].1.stem_snap_h@,
                ListKey::StemSnapV => postscript[i].1.stem_snap_v@,
            };
            list_terms(postscript, contributing.push((i, weight)), key) == with_list(
                list_terms(postscript, contributing, key),
                stated,
                weight,
            )
        }),
{
    assert(contributing.push((i, weight)).drop_last() =~= contributing);
}

/// Lists of one length are put together element by element.
pub proof fn law_lists_of_one_length_are_combined_element_by_element(
    terms: Seq<Seq<(Real, Real)>>,
    values: Seq<Real>,
    weight: Real,
    k: int,
)
    requires
        terms.len() == values.len(),
        0 <= k < values.len(),
    ensures
        with_list(Some(terms), values, weight) matches Some(after) && after.len() == terms.len()
            && after[k] == terms[k].push((values[k], weight)),
{
}

/// A master contributes exactly if its weight is not zero and it has settings;
/// those of the last entry that is where it is count.
pub proof fn law_masters_with_a_weight_contribute(
    postscript: Seq<(Location, PostscriptSettings)>,
    axes: Seq<Tag>,
    weights: Seq<(Map<Tag, Real>, Real)>,
    at: Map<Tag, Real>,
    weight: Real,
    k: int,
)
    ensures
        contributors(postscript, axes, Seq::empty()).len() == 0,
        weight == 0 ==> contributors(postscript, axes, weights.push((at, weight))) == contributors(
            postscript,
            axes,
            weights,
        ),
        (forall|i: int|
            0 <= i < postscript.len() ==> coords::fitted((#[trigger] postscript[i]).0@, axes) != at)
            ==> contributors(postscript, axes, weights.push((at, weight))) == contributors(
            postscript,
            axes,
            weights,
        ),
        weight != 0 && 0 <= k < postscript.len() && coords::fitted(postscript[k].0@, axes) == at && (
        forall|i: int|
            k < i < postscript.len() ==> coords::fitted((#[trigger] postscript[i]).0@, axes) != at)
            ==> contributors(postscript, axes, weights.push((at, weight))) == contributors(
            postscript,
            axes,
            weights,
        ).push((k, weight)),
{
    assert(weights.push((at, weight)).drop_last() =~= weights);
    cff2::lemma_last_fitted_is_the_last(postscript, axes, at);
}

/// The weight classes have these names, by the hundred.
pub proof fn law_weight_classes_have_names(hundreds: int)
    ensures
        hundreds <= 1 ==> weight_name(hundreds) == "Thin"@,
        weight_name(2) == "Extra-light"@ && weight_name(3) == "Light"@,
        weight_name(4) == "Normal"@ && weight_name(5) == "Medium"@,
        weight_name(6) == "Semi-bold"@ && weight_name(7) == "Bold"@,
        weight_name(8) == "Extra-bold"@,
        hundreds >= 9 ==> weight_name(hundreds) == "Black"@,
{
}

/// Where one master contributes, with a weight that changes no number, each
/// number and each list of the settings is the one of its name of that master.
/// The full name is gone.
pub proof fn law_settings_pin_under_their_own_names<
    S: Fn(&Vec<Location>, &Location) -> Vec<(Location, Real)>,
    W: Fn(&Vec<(Real, Real)>) -> Real,
    H: Fn(Real) -> i32,
>(
    s: S,
    w: W,
    h: H,
    static_metadata: StaticMetadata,
    pin: Map<Tag, Real>,
    r: PostscriptSettings,
    i: int,
    one: Real,
)
    requires
        pins_to(s, w, h, static_metadata, pin, r),
        !is_single_master_at_default(static_metadata, pin),
        0 <= i < static_metadata.postscript@.len(),
        forall|x: Real| #[trigger] numeric::sum_of(w, seq![(x, one)]) == x,
        ({
            let axes = coords::tags_of(static_metadata.axes@);
            let places = master_places(static_metadata.postscript@, axes);
            contributors(static_metadata.postscript@, axes, numeric::scalars_of(s, places, pin))
                == seq![(i, one)]
        }),
    ensures
        r.blue_values@ == static_metadata.postscript@[i].1.blue_values@,
        r.other_blues@ == static_metadata.postscript@[i].1.other_blues@,
        r.family_blues@ == static_metadata.postscript@[i].1.family_blues@,
        r.family_other_blues@ == static_metadata.postscript@[i].1.family_other_blues@,
        r.stem_snap_h@ == static_metadata.postscript@[i].1.stem_snap_h@,
        r.stem_snap_v@ == static_metadata.postscript@[i].1.stem_snap_v@,
        r.blue_scale == static_metadata.postscript@[i].1.blue_scale,
        r.blue_shift == static_metadata.postscript@[i].1.blue_shift,
        r.blue_fuzz == static_metadata.postscript@[i].1.blue_fuzz,
        r.os2_weight_class == static_metadata.postscript@[i].1.os2_weight_class,
        r.default_width_x == static_metadata.postscript@[i].1.default_width_x,
        r.nominal_width_x == static_metadata.postscript@[i].1.nominal_width_x,
        r.full_name is None,
{
    let ps = static_metadata.postscript@;
    law_a_lone_master_comes_through(w, ps, i, one, ListKey::BlueValues, NumberKey::BlueScale);
    law_a_lone_master_comes_through(w, ps, i, one, ListKey::OtherBlues, NumberKey::BlueShift);
    law_a_lone_master_comes_through(w, ps, i, one, ListKey::FamilyBlues, NumberKey::BlueFuzz);
    law_a_lone_master_comes_through(w, ps, i, one, ListKey::FamilyOtherBlues, NumberKey::Os2WeightClass);
    law_a_lone_master_comes_through(w, ps, i, one, ListKey::StemSnapH, NumberKey::DefaultWidthX);
    law_a_lone_master_comes_through(w, ps, i, one, ListKey::StemSnapV, NumberKey::NominalWidthX);
}

/// A font with one master, pinned at its default, has all that the master
/// states, names and all.
pub proof fn law_a_single_master_at_its_default_stays_whole<
    S: Fn(&Vec<Location>, &Location) -> Vec<(Location, Real)>,
    W: Fn(&Vec<(Real, Real)>) -> Real,
    H: Fn(Real) -> i32,
>(
    s: S,
    w: W,
    h: H,
    static_metadata: StaticMetadata,
    pin: Map<Tag, Real>,
    r: PostscriptSettings,
)
    requires
        pins_to(s, w, h, static_metadata, pin, r),
        static_metadata.postscript@.len() == 1,
        coords::fitted(pin, static_metadata.axes@.map_values(|a: coords::Axis| a.tag))
            == coords::fitted(
            static_metadata.default_location@,
            static_metadata.axes@.map_values(|a: coords::Axis| a.tag),
        ),
    ensures
        r.blue_values@ == static_metadata.postscript@[0].1.blue_values@,
        r.other_blues@ == static_metadata.postscript@[0].1.other_blues@,
        r.family_blues@ == static_metadata.postscript@[0].1.family_blues@,
        r.family_other_blues@ == static_metadata.postscript@[0].1.family_other_blues@,
        r.stem_snap_h@ == static_metadata.postscript@[0].1.stem_snap_h@,
        r.stem_snap_v@ == static_metadata.postscript@[0].1.stem_snap_v@,
        r.blue_scale == static_metadata.postscript@[0].1.blue_scale,
        r.blue_shift == static_metadata.postscript@[0].1.blue_shift,
        r.blue_fuzz == static_metadata.postscript@[0].1.blue_fuzz,
        r.os2_weight_class == static_metadata.postscript@[0].1.os2_weight_class,
        r.default_width_x == static_metadata.postscript@[0].1.default_width_x,
        r.nominal_width_x == static_metadata.postscript@[0].1.nominal_width_x,
        r.full_name == static_metadata.postscript@[0].1.full_name,
        r.weight_name == static_metadata.postscript@[0].1.weight_name,
        r.force_bold == static_metadata.postscript@[0].1.force_bold,
{
    let ps = static_metadata.postscript@;
    let axes = static_metadata.axes@.map_values(|a: coords::Axis| a.tag);
    assert(axes =~= coords::tags_of(static_metadata.axes@));
    let places = ps.map_values(|p: (Location, PostscriptSettings)| coords::fitted(p.0@, axes));
    assert(places.drop_last() =~= seq![]);
    assert(lookup::first_seen(places.drop_last()) =~= seq![]);
    assert(lookup::first_seen(places).len() == 1);
    assert(master_places(ps, axes).len() == 1);
}

/// The weight name of an instance comes of its weight class, unless the pin is
/// on a master, where there is none; and whether it is forced to be bold is
/// what the default master says.
pub proof fn law_weight_names_come_of_weight_classes<
    S: Fn(&Vec<Location>, &Location) -> Vec<(Location, Real)>,
    W: Fn(&Vec<(Real, Real)>) -> Real,
    H: Fn(Real) -> i32,
>(
    s: S,
    w: W,
    h: H,
    static_metadata: StaticMetadata,
    pin: Map<Tag, Real>,
    r: PostscriptSettings,
    k: int,
)
    requires
        pins_to(s, w, h, static_metadata, pin, r),
        !is_single_master_at_default(static_metadata, pin),
        0 <= k < static_metadata.postscript@.len(),
    ensures
        ({
            let ps = static_metadata.postscript@;
            let axes = static_metadata.axes@.map_values(|a: coords::Axis| a.tag);
            &&& coords::fitted(ps[k].0@, axes) == coords::fitted(pin, axes) ==> r.weight_name is None
            &&& r.os2_weight_class is None ==> r.weight_name is None
            &&& (forall|i: int|
                0 <= i < ps.len() ==> coords::fitted((#[trigger] ps[i]).0@, axes) != coords::fitted(
                    pin,
                    axes,
                )) && r.os2_weight_class is Some ==> (r.weight_name matches Some(name) && name@
                == weight_name(numeric::image(h, r.os2_weight_class->0) as int))
            &&& ps[k].0@ == static_metadata.default_location@ && (forall|i: int|
                0 <= i < k ==> (#[trigger] ps[i]).0@ != static_metadata.default_location@)
                ==> r.force_bold == ps[k].1.force_bold
        }),
{
    let ps = static_metadata.postscript@;
    let axes = static_metadata.axes@.map_values(|a: coords::Axis| a.tag);
    assert(axes =~= coords::tags_of(static_metadata.axes@));
    let places = ps.map_values(|p: (Location, PostscriptSettings)| coords::fitted(p.0@, axes));
    lookup::lemma_first_seen_contains(places);
    assert(places[k] == coords::fitted(ps[k].0@, axes));
    if master_places(ps, axes).contains(coords::fitted(pin, axes)) {
        let all = lookup::first_seen(places);
        let a = choose|a: int| 0 <= a < all.len() && all[a] == coords::fitted(pin, axes);
        assert(places.contains(all[a]));
        let i = choose|i: int| 0 <= i < places.len() && places[i] == all[a];
        assert(coords::fitted(ps[i].0@, axes) == coords::fitted(pin, axes));
    }
    coords::lemma_placed(ps, static_metadata.default_location@);
}

} // verus!
