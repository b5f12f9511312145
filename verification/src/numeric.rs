//! Arithmetic that callers supply: real numbers appear here only by rank, so
//! whoever holds the numbers themselves does the sums.

use crate::coords;
use crate::coords::{Location, Real, Tag};
use vstd::prelude::*;

verus! {

/// `r` may be what `f` makes of `x`.
pub open spec fn maps_to<T, F: Fn(Real) -> T>(f: F, x: Real, r: T) -> bool {
    call_ensures(f, (x,), r)
}

/// `f` gives one answer for every number.
pub open spec fn is_map<T, F: Fn(Real) -> T>(f: F) -> bool {
    &&& forall|x: Real| call_requires(f, (x,))
    &&& forall|x: Real, a: T, b: T| #[trigger]
        maps_to(f, x, a) && #[trigger] maps_to(f, x, b) ==> a == b
}

/// What `f` makes of `x`.
pub open spec fn image<T, F: Fn(Real) -> T>(f: F, x: Real) -> T {
    choose|r: T| maps_to(f, x, r)
}

pub fn apply<T, F: Fn(Real) -> T>(f: &F, x: Real) -> (r: T)
    requires
        is_map(*f),
    ensures
        r == image(*f, x),
{
    let r: T = f(x);
    assert(maps_to(*f, x, r));
    r
}

/// `r` may be what `w` makes of these terms.
pub open spec fn weighs_to<W: Fn(&Vec<(Real, Real)>) -> Real>(
    w: W,
    terms: Seq<(Real, Real)>,
    r: Real,
) -> bool {
    exists|v: Vec<(Real, Real)>| v@ == terms && #[trigger] call_ensures(w, (&v,), r)
}

/// `w` gives one answer for all terms: their weighted sum, from left to right.
pub open spec fn is_sum<W: Fn(&Vec<(Real, Real)>) -> Real>(w: W) -> bool {
    &&& forall|v: Vec<(Real, Real)>| call_requires(w, (&v,))
    &&& forall|terms: Seq<(Real, Real)>, a: Real, b: Real| #[trigger]
        weighs_to(w, terms, a) && #[trigger] weighs_to(w, terms, b) ==> a == b
}

/// The sum of values times their weights.
pub open spec fn sum_of<W: Fn(&Vec<(Real, Real)>) -> Real>(
    w: W,
    terms: Seq<(Real, Real)>,
) -> Real {
    choose|r: Real| weighs_to(w, terms, r)
}

pub fn sum<W: Fn(&Vec<(Real, Real)>) -> Real>(w: &W, terms: &Vec<(Real, Real)>) -> (r: Real)
    requires
        is_sum(*w),
    ensures
        r == sum_of(*w, terms@),
{
    let r: Real = w(terms);
    assert(weighs_to(*w, terms@, r));
    r
}

/// Places with their weights.
pub open spec fn weighted(list: Seq<(Location, Real)>) -> Seq<(Map<Tag, Real>, Real)> {
    list.map_values(|e: (Location, Real)| (e.0@, e.1))
}

/// `r` may be the weights that `s` gives masters at these places at a pin.
pub open spec fn scales_to<S: Fn(&Vec<Location>, &Location) -> Vec<(Location, Real)>>(
    s: S,
    places: Seq<Map<Tag, Real>>,
    pin: Map<Tag, Real>,
    r: Seq<(Map<Tag, Real>, Real)>,
) -> bool {
    exists|list: Vec<Location>, at: Location, out: Vec<(Location, Real)>|
        coords::places(list@) == places && at@ == pin && weighted(out@) == r
            && #[trigger] call_ensures(s, (&list, &at), out)
}

/// `s` gives one answer for all masters and pins: the weight of each master, in
/// the order of the variation model over them.
pub open spec fn is_model<S: Fn(&Vec<Location>, &Location) -> Vec<(Location, Real)>>(s: S) -> bool {
    &&& forall|list: Vec<Location>, at: Location| call_requires(s, (&list, &at))
    &&& forall|
        places: Seq<Map<Tag, Real>>,
        pin: Map<Tag, Real>,
        a: Seq<(Map<Tag, Real>, Real)>,
        b: Seq<(Map<Tag, Real>, Real)>,
    | #[trigger]
        scales_to(s, places, pin, a) && #[trigger] scales_to(s, places, pin, b) ==> a == b
}

/// The weights of masters at these places at a pin.
pub open spec fn scalars_of<S: Fn(&Vec<Location>, &Location) -> Vec<(Location, Real)>>(
    s: S,
    places: Seq<Map<Tag, Real>>,
    pin: Map<Tag, Real>,
) -> Seq<(Map<Tag, Real>, Real)> {
    choose|r: Seq<(Map<Tag, Real>, Real)>| scales_to(s, places, pin, r)
}

pub fn scalars<S: Fn(&Vec<Location>, &Location) -> Vec<(Location, Real)>>(
    s: &S,
    masters: &Vec<Location>,
    pin: &Location,
) -> (r: Vec<(Location, Real)>)
    requires
        is_model(*s),
    ensures
        weighted(r@) == scalars_of(*s, coords::places(masters@), pin@),
{
    let r: Vec<(Location, Real)> = s(masters, pin);
    assert(scales_to(*s, coords::places(masters@), pin@, weighted(r@)));
    r
}

/// `r` may be what `p` reads a string as.
pub open spec fn reads_as<P: Fn(&String) -> Option<Real>>(
    p: P,
    raw: Seq<char>,
    r: Option<Real>,
) -> bool {
    exists|s: String| s@ == raw && #[trigger] call_ensures(p, (&s,), r)
}

/// `p` gives one answer for every string: the finite number it spells, if any.
pub open spec fn is_reader<P: Fn(&String) -> Option<Real>>(p: P) -> bool {
    &&& forall|s: String| call_requires(p, (&s,))
    &&& forall|raw: Seq<char>, a: Option<Real>, b: Option<Real>| #[trigger]
        reads_as(p, raw, a) && #[trigger] reads_as(p, raw, b) ==> a == b
}

/// The number a string spells, if any.
pub open spec fn number_in<P: Fn(&String) -> Option<Real>>(p: P, raw: Seq<char>) -> Option<Real> {
    choose|r: Option<Real>| reads_as(p, raw, r)
}

pub fn read_number<P: Fn(&String) -> Option<Real>>(p: &P, raw: &String) -> (r: Option<Real>)
    requires
        is_reader(*p),
    ensures
        r == number_in(*p, raw@),
{
    let r: Option<Real> = p(raw);
    assert(reads_as(*p, raw@, r));
    r
}

/// What a function that gives one answer makes of a number is whatever it may
/// return for it.
pub proof fn law_images_are_what_is_returned<T, F: Fn(Real) -> T>(f: F, x: Real, r: T)
    requires
        is_map(f),
        call_ensures(f, (x,), r),
    ensures
        image(f, x) == r,
{
    assert(maps_to(f, x, r));
}

/// The sum of some terms is whatever may be returned for them, in their order.
pub proof fn law_sums_are_what_is_returned<W: Fn(&Vec<(Real, Real)>) -> Real>(
    w: W,
    terms: Vec<(Real, Real)>,
    r: Real,
)
    requires
        is_sum(w),
        call_ensures(w, (&terms,), r),
    ensures
        sum_of(w, terms@) == r,
{
    assert(weighs_to(w, terms@, r));
}

/// The weights of masters at a pin are whatever may be returned for them, in the
/// order in which they are returned.
pub proof fn law_weights_are_what_is_returned<
    S: Fn(&Vec<Location>, &Location) -> Vec<(Location, Real)>,
>(s: S, masters: Vec<Location>, pin: Location, r: Vec<(Location, Real)>, i: int)
    requires
        is_model(s),
        call_ensures(s, (&masters, &pin), r),
        0 <= i < r@.len(),
    ensures
        scalars_of(s, coords::places(masters@), pin@).len() == r@.len(),
        scalars_of(s, coords::places(masters@), pin@)[i].0 == r@[i].0@,
        scalars_of(s, coords::places(masters@), pin@)[i].1 == r@[i].1,
{
    assert(scales_to(s, coords::places(masters@), pin@, weighted(r@)));
    assert(scalars_of(s, coords::places(masters@), pin@) == weighted(r@));
    assert(weighted(r@).len() == r@.len());
    assert(weighted(r@)[i] == (r@[i].0@, r@[i].1));
}

/// The number in a string is whatever may be returned for it.
pub proof fn law_numbers_are_what_is_returned<P: Fn(&String) -> Option<Real>>(
    p: P,
    raw: String,
    r: Option<Real>,
)
    requires
        is_reader(p),
        call_ensures(p, (&raw,), r),
    ensures
        number_in(p, raw@) == r,
{
    assert(reads_as(p, raw@, r));
}

} // verus!
