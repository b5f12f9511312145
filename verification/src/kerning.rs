//! Kerning reduced to one location.

use crate::coords;
use crate::coords::{Location, Real, Tag};
use crate::glyph;
use crate::glyph::{
    GroupView, KernGroup, KernPair, KernSide, KerningInstance, PairView, SideView,
};
use crate::lookup;
use crate::numeric;
use crate::static_metadata::StaticMetadata;
use crate::text;
use vstd::prelude::*;

verus! {

/// Whether a group is on the first side, if `first`, or on the second.
pub open spec fn is_on_side(group: GroupView, first: bool) -> bool {
    match group {
        GroupView::Side1(_) => first,
        GroupView::Side2(_) => !first,
    }
}

/// Whether a group on one side lists a glyph.
pub open spec fn lists(
    group: (GroupView, Seq<Seq<char>>),
    first: bool,
    name: Seq<char>,
) -> bool {
    is_on_side(group.0, first) && group.1.contains(name)
}

/// The group on one side that a glyph belongs to: the last that lists it.
pub open spec fn group_of(
    groups: Seq<(GroupView, Seq<Seq<char>>)>,
    first: bool,
    name: Seq<char>,
) -> Option<GroupView>
    decreases groups.len(),
{
    if groups.len() == 0 {
        None
    } else if lists(groups.last(), first, name) {
        Some(groups.last().0)
    } else {
        group_of(groups.drop_last(), first, name)
    }
}

/// What a master literally says of a pair.
pub open spec fn literal_kern(kerns: Seq<(PairView, Real)>, pair: PairView) -> Option<Real>
    decreases kerns.len(),
{
    if kerns.len() == 0 {
        None
    } else {
        match literal_kern(kerns.drop_last(), pair) {
            Some(v) => Some(v),
            None => if kerns.last().0 == pair {
                Some(kerns.last().1)
            } else {
                None
            },
        }
    }
}

/// The group form of a side: itself if it is a group, else the group that the
/// glyph belongs to.
pub open spec fn group_form(
    side: SideView,
    groups: Seq<(GroupView, Seq<Seq<char>>)>,
    first: bool,
) -> Option<SideView> {
    match side {
        SideView::Group(_) => Some(side),
        SideView::Glyph(name) => match group_of(groups, first, name) {
            Some(group) => Some(SideView::Group(group)),
            None => None,
        },
    }
}

/// The glyph form of a side. A group has none.
pub open spec fn glyph_form(side: SideView) -> Option<SideView> {
    match side {
        SideView::Group(_) => None,
        SideView::Glyph(_) => Some(side),
    }
}

/// What a master literally says of a pair, if both sides are there.
pub open spec fn probed(
    kerns: Seq<(PairView, Real)>,
    one: Option<SideView>,
    two: Option<SideView>,
) -> Option<Real> {
    match (one, two) {
        (Some(one), Some(two)) => literal_kern(kerns, (one, two)),
        _ => None,
    }
}

/// What a master says of a pair: the literal pair, else the first side's group
/// with the second glyph, else the first glyph with the second side's group,
/// else both groups, else zero.
pub open spec fn resolved_kern(
    kerns: Seq<(PairView, Real)>,
    pair: PairView,
    groups: Seq<(GroupView, Seq<Seq<char>>)>,
) -> Real {
    let group1 = group_form(pair.0, groups, true);
    let group2 = group_form(pair.1, groups, false);
    let glyph1 = glyph_form(pair.0);
    let glyph2 = glyph_form(pair.1);
    if literal_kern(kerns, pair) is Some {
        literal_kern(kerns, pair)->0
    } else if probed(kerns, group1, glyph2) is Some {
        probed(kerns, group1, glyph2)->0
    } else if probed(kerns, glyph1, group2) is Some {
        probed(kerns, glyph1, group2)->0
    } else if probed(kerns, group1, group2) is Some {
        probed(kerns, group1, group2)->0
    } else {
        0
    }
}

/// Whether a side is a plain glyph that belongs to a group.
pub open spec fn is_exception(
    side: SideView,
    groups: Seq<(GroupView, Seq<Seq<char>>)>,
    first: bool,
) -> bool {
    match side {
        SideView::Glyph(name) => group_of(groups, first, name) is Some,
        SideView::Group(_) => false,
    }
}

/// The groups of the default master, the first whose position is all zero.
pub open spec fn default_groups(instances: Seq<KerningInstance>) -> Seq<(GroupView, Seq<Seq<char>>)>
    decreases instances.len(),
{
    if instances.len() == 0 {
        seq![]
    } else if is_at_default(instances[0]) {
        glyph::group_view(instances[0].groups@)
    } else {
        default_groups(instances.skip(1))
    }
}

pub open spec fn is_at_default(instance: KerningInstance) -> bool {
    forall|t: Tag| #[trigger] instance.location@.contains_key(t) ==> instance.location@[t] == 0
}

/// The last instance that is at `at` once it is restricted to `axes`.
pub open spec fn instance_at(
    instances: Seq<KerningInstance>,
    axes: Seq<Tag>,
    at: Map<Tag, Real>,
) -> Option<int>
    decreases instances.len(),
{
    if instances.len() == 0 {
        None
    } else if coords::fitted(instances.last().location@, axes) == at {
        Some(instances.len() - 1)
    } else {
        instance_at(instances.drop_last(), axes, at)
    }
}

/// Where masters are once they are restricted to `axes`, each place once.
pub open spec fn master_places(instances: Seq<KerningInstance>, axes: Seq<Tag>) -> Seq<
    Map<Tag, Real>,
> {
    lookup::first_seen(
        instances.map_values(|k: KerningInstance| coords::fitted(k.location@, axes)),
    )
}

/// The masters that have a weight other than zero, with their weights.
pub open spec fn contributors(
    instances: Seq<KerningInstance>,
    axes: Seq<Tag>,
    weights: Seq<(Map<Tag, Real>, Real)>,
) -> Seq<(int, Real)>
    decreases weights.len(),
{
    if weights.len() == 0 {
        seq![]
    } else {
        let rest = contributors(instances, axes, weights.drop_last());
        let (at, weight) = weights.last();
        match instance_at(instances, axes, at) {
            Some(i) => if weight != 0 {
                rest.push((i, weight))
            } else {
                rest
            },
            None => rest,
        }
    }
}

/// The pairs of some masters, one master after the other.
pub open spec fn literal_pairs(
    instances: Seq<KerningInstance>,
    contributing: Seq<(int, Real)>,
) -> Seq<PairView>
    decreases contributing.len(),
{
    if contributing.len() == 0 {
        seq![]
    } else {
        literal_pairs(instances, contributing.drop_last()) + pairs_of(
            instances[contributing.last().0],
        )
    }
}

pub open spec fn pairs_of(instance: KerningInstance) -> Seq<PairView> {
    instance.kerns@.map_values(|k: (KernPair, Real)| glyph::pair_view(k.0))
}

/// What each contributing master says of a pair, and its weight.
pub open spec fn kern_terms(
    instances: Seq<KerningInstance>,
    contributing: Seq<(int, Real)>,
    pair: PairView,
    groups: Seq<(GroupView, Seq<Seq<char>>)>,
) -> Seq<(Real, Real)> {
    contributing.map_values(
        |c: (int, Real)|
            (resolved_kern(glyph::kern_view(instances[c.0].kerns@), pair, groups), c.1),
    )
}

/// The pairs of an instance with their values. A pair that comes to zero is
/// dropped, unless either side is an exception to a group.
pub open spec fn pinned_kerns<W: Fn(&Vec<(Real, Real)>) -> Real>(
    w: W,
    instances: Seq<KerningInstance>,
    contributing: Seq<(int, Real)>,
    pairs: Seq<PairView>,
    groups: Seq<(GroupView, Seq<Seq<char>>)>,
) -> Seq<(PairView, Real)>
    decreases pairs.len(),
{
    if pairs.len() == 0 {
        seq![]
    } else {
        let rest = pinned_kerns(w, instances, contributing, pairs.drop_last(), groups);
        let pair = pairs.last();
        let value = numeric::sum_of(w, kern_terms(instances, contributing, pair, groups));
        if value == 0 && !is_exception(pair.0, groups, true) && !is_exception(
            pair.1,
            groups,
            false,
        ) {
            rest
        } else {
            rest.push((pair, value))
        }
    }
}

/// The kerning at a pin, from the masters at these locations.
///
/// A pin on a master takes that master's pairs as they are. Otherwise the pairs
/// are those that contributing masters literally have, and their values the
/// weighted sums of what each of those masters says of the pair.
pub open spec fn kerns_at<
    S: Fn(&Vec<Location>, &Location) -> Vec<(Location, Real)>,
    W: Fn(&Vec<(Real, Real)>) -> Real,
>(
    s: S,
    w: W,
    instances: Seq<KerningInstance>,
    axes: Seq<Tag>,
    pin: Map<Tag, Real>,
) -> Seq<(PairView, Real)> {
    match instance_at(instances, axes, coords::fitted(pin, axes)) {
        Some(i) => glyph::kern_view(instances[i].kerns@),
        None => {
            let weights = numeric::scalars_of(s, master_places(instances, axes), pin);
            let contributing = contributors(instances, axes, weights);
            pinned_kerns(
                w,
                instances,
                contributing,
                lookup::first_seen(literal_pairs(instances, contributing)),
                default_groups(instances),
            )
        },
    }
}

fn find_group(groups: &Vec<(KernGroup, Vec<String>)>, first: bool, name: &String) -> (r: Option<
    usize,
>)
    ensures
        match r {
            Some(i) => i < groups@.len() && group_of(glyph::group_view(groups@), first, name@)
                == Some(groups@[i as int].0@),
            None => group_of(glyph::group_view(groups@), first, name@) is None,
        },
{
    let ghost all = glyph::group_view(groups@);
    let mut n: usize = groups.len();
    assert(all.take(n as int) =~= all);
    while n > 0
        invariant
            n <= groups@.len(),
            all == glyph::group_view(groups@),
            group_of(all, first, name@) == group_of(all.take(n as int), first, name@),
        decreases n,
    {
        proof {
            assert(all.take(n as int).drop_last() =~= all.take(n - 1));
            assert(all.take(n as int).last() == all[n - 1]);
        }
        let on_side: bool = match &groups[n - 1].0 {
            KernGroup::Side1(_) => first,
            KernGroup::Side2(_) => !first,
        };
        if on_side && lists_name(&groups[n - 1].1, name) {
            return Some(n - 1);
        }
        n = n - 1;
    }
    None
}

fn lists_name(names: &Vec<String>, name: &String) -> (r: bool)
    ensures
        r == text::texts(names@).contains(name@),
{
    let mut i: usize = 0;
    while i < names.len()
        invariant
            i <= names@.len(),
            forall|j: int| 0 <= j < i ==> #[trigger] text::texts(names@)[j] != name@,
        decreases names.len() - i,
    {
        if names[i] == *name {
            assert(text::texts(names@)[i as int] == name@);
            return true;
        }
        i = i + 1;
    }
    false
}

proof fn lemma_literal_kern(kerns: Seq<(PairView, Real)>, pair: PairView, n: int)
    requires
        0 <= n <= kerns.len(),
        forall|j: int| 0 <= j < n ==> (#[trigger] kerns[j]).0 != pair,
        n < kerns.len() ==> kerns[n].0 == pair,
    ensures
        literal_kern(kerns, pair) == (if n < kerns.len() {
            Some(kerns[n].1)
        } else {
            None
        }),
    decreases kerns.len(),
{
    if kerns.len() > 0 {
        let rest = kerns.drop_last();
        assert(forall|j: int| 0 <= j < rest.len() ==> rest[j] == kerns[j]);
        if n < kerns.len() {
            if n < rest.len() {
                lemma_literal_kern(rest, pair, n);
            } else {
                lemma_literal_kern(rest, pair, rest.len() as int);
            }
        } else {
            lemma_literal_kern(rest, pair, rest.len() as int);
            assert(kerns[kerns.len() - 1].0 != pair);
        }
    }
}

fn find_kern(kerns: &Vec<(KernPair, Real)>, one: &KernSide, two: &KernSide) -> (r: Option<Real>)
    ensures
        r == literal_kern(glyph::kern_view(kerns@), (one@, two@)),
{
    let ghost all = glyph::kern_view(kerns@);
    let mut i: usize = 0;
    while i < kerns.len()
        invariant
            i <= kerns@.len(),
            all == glyph::kern_view(kerns@),
            forall|j: int| 0 <= j < i ==> (#[trigger] all[j]).0 != (one@, two@),
        decreases kerns.len() - i,
    {
        assert(all[i as int].0 == glyph::pair_view(kerns@[i as int].0));
        if kerns[i].0.0.same(one) && kerns[i].0.1.same(two) {
            proof {
                lemma_literal_kern(all, (one@, two@), i as int);
            }
            return Some(kerns[i].1);
        }
        i = i + 1;
    }
    proof {
        lemma_literal_kern(all, (one@, two@), all.len() as int);
    }
    None
}

fn group_form_of(side: &KernSide, groups: &Vec<(KernGroup, Vec<String>)>, first: bool) -> (r: Option<
    KernSide,
>)
    ensures
        group_form(side@, glyph::group_view(groups@), first) == (match r {
            Some(s) => Some(s@),
            None => None,
        }),
{
    match side {
        KernSide::Group(_) => Some(side.clone()),
        KernSide::Glyph(name) => match find_group(groups, first, name) {
            Some(i) => Some(KernSide::Group(groups[i].0.clone())),
            None => None,
        },
    }
}

fn probe(kerns: &Vec<(KernPair, Real)>, one: Option<&KernSide>, two: Option<&KernSide>) -> (r: Option<
    Real,
>)
    ensures
        r == probed(
            glyph::kern_view(kerns@),
            match one {
                Some(s) => Some(s@),
                None => None,
            },
            match two {
                Some(s) => Some(s@),
                None => None,
            },
        ),
{
    match (one, two) {
        (Some(one), Some(two)) => find_kern(kerns, one, two),
        _ => None,
    }
}

/// What one master says about a pair.
pub fn resolve_kern(
    instance: &KerningInstance,
    one: &KernSide,
    two: &KernSide,
    groups: &Vec<(KernGroup, Vec<String>)>,
) -> (r: Real)
    ensures
        r == resolved_kern(
            glyph::kern_view(instance.kerns@),
            (one@, two@),
            glyph::group_view(groups@),
        ),
{
    if let Some(value) = find_kern(&instance.kerns, one, two) {
        return value;
    }
    let group1: Option<KernSide> = group_form_of(one, groups, true);
    let group2: Option<KernSide> = group_form_of(two, groups, false);
    let glyph1: Option<&KernSide> = match one {
        KernSide::Glyph(_) => Some(one),
        KernSide::Group(_) => None,
    };
    let glyph2: Option<&KernSide> = match two {
        KernSide::Glyph(_) => Some(two),
        KernSide::Group(_) => None,
    };
    let group1: Option<&KernSide> = match &group1 {
        Some(s) => Some(s),
        None => None,
    };
    let group2: Option<&KernSide> = match &group2 {
        Some(s) => Some(s),
        None => None,
    };
    if let Some(value) = probe(&instance.kerns, group1, glyph2) {
        return value;
    }
    if let Some(value) = probe(&instance.kerns, glyph1, group2) {
        return value;
    }
    match probe(&instance.kerns, group1, group2) {
        Some(value) => value,
        None => 0,
    }
}

fn is_group_member(side: &KernSide, groups: &Vec<(KernGroup, Vec<String>)>, first: bool) -> (r:
    bool)
    ensures
        r == is_exception(side@, glyph::group_view(groups@), first),
{
    match side {
        KernSide::Glyph(name) => find_group(groups, first, name).is_some(),
        KernSide::Group(_) => false,
    }
}

fn copy_groups(groups: &Vec<(KernGroup, Vec<String>)>) -> (r: Vec<(KernGroup, Vec<String>)>)
    ensures
        glyph::group_view(r@) == glyph::group_view(groups@),
{
    let mut r: Vec<(KernGroup, Vec<String>)> = Vec::new();
    let mut i: usize = 0;
    while i < groups.len()
        invariant
            i <= groups@.len(),
            r@.len() == i,
            forall|k: int|
                0 <= k < i ==> (#[trigger] r@[k]).0@ == groups@[k].0@ && text::texts(r@[k].1@)
                    == text::texts(groups@[k].1@),
        decreases groups.len() - i,
    {
        let mut members: Vec<String> = Vec::new();
        let mut m: usize = 0;
        while m < groups[i].1.len()
            invariant
                i < groups@.len(),
                m <= groups@[i as int].1@.len(),
                members@.len() == m,
                forall|k: int|
                    0 <= k < m ==> (#[trigger] members@[k])@ == groups@[i as int].1@[k]@,
            decreases groups@[i as int].1@.len() - m,
        {
            members.push(groups[i].1[m].clone());
            m = m + 1;
        }
        assert(text::texts(members@) =~= text::texts(groups@[i as int].1@));
        r.push((groups[i].0.clone(), members));
        i = i + 1;
    }
    assert(glyph::group_view(r@) =~= glyph::group_view(groups@));
    r
}

fn copy_kerns(kerns: &Vec<(KernPair, Real)>) -> (r: Vec<(KernPair, Real)>)
    ensures
        glyph::kern_view(r@) == glyph::kern_view(kerns@),
{
    let mut r: Vec<(KernPair, Real)> = Vec::new();
    let mut i: usize = 0;
    while i < kerns.len()
        invariant
            i <= kerns@.len(),
            r@.len() == i,
            forall|k: int|
                0 <= k < i ==> glyph::pair_view((#[trigger] r@[k]).0) == glyph::pair_view(
                    kerns@[k].0,
                ) && r@[k].1 == kerns@[k].1,
        decreases kerns.len() - i,
    {
        r.push(((kerns[i].0.0.clone(), kerns[i].0.1.clone()), kerns[i].1));
        i = i + 1;
    }
    assert(glyph::kern_view(r@) =~= glyph::kern_view(kerns@));
    r
}

fn find_instance_at(instances: &Vec<KerningInstance>, axes: &Vec<Tag>, at: &Location) -> (r: Option<
    usize,
>)
    ensures
        instance_at(instances@, axes@, at@) == (match r {
            Some(i) => Some(i as int),
            None => None,
        }),
        r is Some ==> r->0 < instances@.len(),
{
    let mut n: usize = instances.len();
    assert(instances@.take(n as int) =~= instances@);
    while n > 0
        invariant
            n <= instances@.len(),
            instance_at(instances@, axes@, at@) == instance_at(
                instances@.take(n as int),
                axes@,
                at@,
            ),
        decreases n,
    {
        assert(instances@.take(n as int).drop_last() =~= instances@.take(n - 1));
        assert(instances@.take(n as int).last() == instances@[n - 1]);
        if instances[n - 1].location.fit_to_axes(axes).same(at) {
            return Some(n - 1);
        }
        n = n - 1;
    }
    None
}

fn places_of(instances: &Vec<KerningInstance>, axes: &Vec<Tag>) -> (r: Vec<Location>)
    ensures
        coords::places(r@) == master_places(instances@, axes@),
{
    let ghost all = instances@.map_values(
        |k: KerningInstance| coords::fitted(k.location@, axes@),
    );
    let mut r: Vec<Location> = Vec::new();
    let mut i: usize = 0;
    assert(coords::places(r@) =~= lookup::first_seen(all.take(0)));
    while i < instances.len()
        invariant
            i <= instances@.len(),
            all == instances@.map_values(
                |k: KerningInstance| coords::fitted(k.location@, axes@),
            ),
            coords::places(r@) == lookup::first_seen(all.take(i as int)),
        decreases instances.len() - i,
    {
        assert(all.take(i + 1).drop_last() =~= all.take(i as int));
        let at: Location = instances[i].location.fit_to_axes(axes);
        assert(all.take(i + 1).last() == at@);
        match coords::find_place(&r, &at) {
            Some(k) => {
                assert(coords::places(r@)[k as int] == at@);
            },
            None => {
                let ghost before = r@;
                let ghost place = at@;
                assert(!coords::places(before).contains(place));
                r.push(at);
                assert(coords::places(r@) =~= coords::places(before).push(place));
            },
        }
        i = i + 1;
    }
    assert(all.take(i as int) =~= all);
    r
}

/// Indices as numbers.
spec fn indexed(list: Seq<(usize, Real)>) -> Seq<(int, Real)> {
    list.map_values(|c: (usize, Real)| (c.0 as int, c.1))
}

fn find_contributors(
    instances: &Vec<KerningInstance>,
    axes: &Vec<Tag>,
    weights: &Vec<(Location, Real)>,
) -> (r: Vec<(usize, Real)>)
    ensures
        indexed(r@) == contributors(instances@, axes@, numeric::weighted(weights@)),
        forall|i: int| 0 <= i < r@.len() ==> (#[trigger] r@[i]).0 < instances@.len(),
{
    let ghost all = numeric::weighted(weights@);
    let mut r: Vec<(usize, Real)> = Vec::new();
    let mut i: usize = 0;
    while i < weights.len()
        invariant
            i <= weights@.len(),
            all == numeric::weighted(weights@),
            indexed(r@) =~= contributors(instances@, axes@, all.take(i as int)),
            forall|k: int| 0 <= k < r@.len() ==> (#[trigger] r@[k]).0 < instances@.len(),
        decreases weights.len() - i,
    {
        assert(all.take(i + 1).drop_last() =~= all.take(i as int));
        assert(all.take(i + 1).last() == (weights@[i as int].0@, weights@[i as int].1));
        if weights[i].1 != 0 {
            if let Some(k) = find_instance_at(instances, axes, &weights[i].0) {
                let ghost before = r@;
                r.push((k, weights[i].1));
                assert(indexed(r@) =~= indexed(before).push((k as int, weights@[i as int].1)));
            }
        }
        i = i + 1;
    }
    assert(all.take(i as int) =~= all);
    r
}

/// What each pair of a list is.
spec fn pair_views(pairs: Seq<KernPair>) -> Seq<PairView> {
    pairs.map_values(|p: KernPair| glyph::pair_view(p))
}

fn push_pair(pairs: &mut Vec<KernPair>, pair: &KernPair)
    ensures
        pair_views(final(pairs)@) == (if pair_views(old(pairs)@).contains(glyph::pair_view(*pair)) {
            pair_views(old(pairs)@)
        } else {
            pair_views(old(pairs)@).push(glyph::pair_view(*pair))
        }),
{
    let mut i: usize = 0;
    while i < pairs.len()
        invariant
            i <= pairs@.len(),
            *pairs == *old(pairs),
            forall|j: int|
                0 <= j < i ==> #[trigger] pair_views(pairs@)[j] != glyph::pair_view(*pair),
        decreases pairs.len() - i,
    {
        assert(pair_views(pairs@)[i as int] == glyph::pair_view(pairs@[i as int]));
        if pairs[i].0.same(&pair.0) && pairs[i].1.same(&pair.1) {
            return ;
        }
        i = i + 1;
    }
    let ghost before = pairs@;
    pairs.push((pair.0.clone(), pair.1.clone()));
    assert(pair_views(pairs@) =~= pair_views(before).push(glyph::pair_view(*pair)));
}

fn find_pairs(instances: &Vec<KerningInstance>, contributing: &Vec<(usize, Real)>) -> (r: Vec<
    KernPair,
>)
    requires
        forall|i: int|
            0 <= i < contributing@.len() ==> (#[trigger] contributing@[i]).0 < instances@.len(),
    ensures
        pair_views(r@) == lookup::first_seen(literal_pairs(instances@, indexed(contributing@))),
{
    let ghost all = indexed(contributing@);
    let mut r: Vec<KernPair> = Vec::new();
    let mut c: usize = 0;
    assert(pair_views(r@) =~= lookup::first_seen(literal_pairs(instances@, all.take(0))));
    while c < contributing.len()
        invariant
            c <= contributing@.len(),
            all == indexed(contributing@),
            forall|i: int|
                0 <= i < contributing@.len() ==> (#[trigger] contributing@[i]).0 < instances@.len(),
            pair_views(r@) == lookup::first_seen(literal_pairs(instances@, all.take(c as int))),
        decreases contributing.len() - c,
    {
        let kerns: &Vec<(KernPair, Real)> = &instances[contributing[c].0].kerns;
        let ghost before = literal_pairs(instances@, all.take(c as int));
        let ghost these = pairs_of(instances@[contributing@[c as int].0 as int]);
        let mut k: usize = 0;
        assert(before + these.take(0) =~= before);
        while k < kerns.len()
            invariant
                k <= kerns@.len(),
                c < contributing@.len(),
                contributing@[c as int].0 < instances@.len(),
                *kerns == instances@[contributing@[c as int].0 as int].kerns,
                these == pairs_of(instances@[contributing@[c as int].0 as int]),
                pair_views(r@) == lookup::first_seen(before + these.take(k as int)),
            decreases kerns.len() - k,
        {
            proof {
                let now = before + these.take(k + 1);
                assert(now.drop_last() =~= before + these.take(k as int));
                assert(now.last() == glyph::pair_view(kerns@[k as int].0));
            }
            push_pair(&mut r, &kerns[k].0);
            k = k + 1;
        }
        proof {
            assert(these.take(k as int) =~= these);
            assert(all.take(c + 1).drop_last() =~= all.take(c as int));
            assert(all.take(c + 1).last() == all[c as int]);
        }
        c = c + 1;
    }
    assert(all.take(c as int) =~= all);
    r
}

fn find_default_groups(instances: &Vec<KerningInstance>) -> (r: Vec<(KernGroup, Vec<String>)>)
    ensures
        glyph::group_view(r@) == default_groups(instances@),
{
    let mut i: usize = 0;
    assert(instances@.skip(0) =~= instances@);
    while i < instances.len()
        invariant
            i <= instances@.len(),
            default_groups(instances@) == default_groups(instances@.skip(i as int)),
        decreases instances.len() - i,
    {
        if instances[i].location.is_default() {
            assert(is_at_default(instances@.skip(i as int)[0]));
            return copy_groups(&instances[i].groups);
        }
        assert(!is_at_default(instances@.skip(i as int)[0]));
        assert(instances@.skip(i as int).skip(1) =~= instances@.skip(i + 1));
        i = i + 1;
    }
    let r: Vec<(KernGroup, Vec<String>)> = Vec::new();
    assert(glyph::group_view(r@) =~= default_groups(instances@));
    r
}

/// Every source's kerning reduced to one instance at `pin`.
///
/// The groups are the default master's, and only the default master's. The
/// result is keyed by the default location. `scalars` gives the weight of each
/// master at a pin, and `weigh` sums values by weight.
pub fn pin_kerning<
    S: Fn(&Vec<Location>, &Location) -> Vec<(Location, Real)>,
    W: Fn(&Vec<(Real, Real)>) -> Real,
>(
    static_metadata: &StaticMetadata,
    instances: &Vec<KerningInstance>,
    pin: &Location,
    scalars: &S,
    weigh: &W,
) -> (r: KerningInstance)
    requires
        numeric::is_model(*scalars),
        numeric::is_sum(*weigh),
    ensures
        r.location@ == static_metadata.home(),
        glyph::group_view(r.groups@) == default_groups(instances@),
        glyph::kern_view(r.kerns@) == kerns_at(
            *scalars,
            *weigh,
            instances@,
            coords::tags_of(static_metadata.axes@),
            pin@,
        ),
        (forall|i: int| 0 <= i < instances@.len() ==> (#[trigger] instances@[i]).is_keyed())
            ==> r.is_keyed(),
{
    proof {
        if forall|i: int| 0 <= i < instances@.len() ==> (#[trigger] instances@[i]).is_keyed() {
            law_pinned_kerning_is_keyed(
                *scalars,
                *weigh,
                instances@,
                coords::tags_of(static_metadata.axes@),
                pin@,
            );
        }
    }
    let axes: Vec<Tag> = coords::axis_order(&static_metadata.axes);
    let location: Location = static_metadata.default_location().clone();
    let groups: Vec<(KernGroup, Vec<String>)> = find_default_groups(instances);
    if let Some(i) = find_instance_at(instances, &axes, &pin.fit_to_axes(&axes)) {
        return KerningInstance { location, kerns: copy_kerns(&instances[i].kerns), groups };
    }
    let weights: Vec<(Location, Real)> = numeric::scalars(
        scalars,
        &places_of(instances, &axes),
        pin,
    );
    let contributing: Vec<(usize, Real)> = find_contributors(instances, &axes, &weights);
    let pairs: Vec<KernPair> = find_pairs(instances, &contributing);
    let ghost who = indexed(contributing@);
    let ghost all = pair_views(pairs@);
    let ghost in_groups = glyph::group_view(groups@);
    let mut kerns: Vec<(KernPair, Real)> = Vec::new();
    let mut i: usize = 0;
    assert(glyph::kern_view(kerns@) =~= pinned_kerns(
        *weigh,
        instances@,
        who,
        all.take(0),
        in_groups,
    ));
    while i < pairs.len()
        invariant
            i <= pairs@.len(),
            numeric::is_sum(*weigh),
            all == pair_views(pairs@),
            who == indexed(contributing@),
            in_groups == glyph::group_view(groups@),
            forall|k: int|
                0 <= k < contributing@.len() ==> (#[trigger] contributing@[k]).0 < instances@.len(),
            glyph::kern_view(kerns@) == pinned_kerns(
                *weigh,
                instances@,
                who,
                all.take(i as int),
                in_groups,
            ),
        decreases pairs.len() - i,
    {
        let ghost pair = glyph::pair_view(pairs@[i as int]);
        let mut terms: Vec<(Real, Real)> = Vec::new();
        let mut c: usize = 0;
        while c < contributing.len()
            invariant
                i < pairs@.len(),
                c <= contributing@.len(),
                pair == glyph::pair_view(pairs@[i as int]),
                who == indexed(contributing@),
                in_groups == glyph::group_view(groups@),
                forall|k: int|
                    0 <= k < contributing@.len() ==> (#[trigger] contributing@[k]).0
                        < instances@.len(),
                terms@ =~= kern_terms(instances@, who, pair, in_groups).take(c as int),
            decreases contributing.len() - c,
        {
            let value: Real = resolve_kern(
                &instances[contributing[c].0],
                &pairs[i].0,
                &pairs[i].1,
                &groups,
            );
            terms.push((value, contributing[c].1));
            c = c + 1;
        }
        assert(terms@ =~= kern_terms(instances@, who, pair, in_groups));
        proof {
            assert(all.take(i + 1).drop_last() =~= all.take(i as int));
            assert(all.take(i + 1).last() == pair);
        }
        let value: Real = numeric::sum(weigh, &terms);
        if !(value == 0 && !is_group_member(&pairs[i].0, &groups, true) && !is_group_member(
            &pairs[i].1,
            &groups,
            false,
        )) {
            let ghost before = kerns@;
            kerns.push(((pairs[i].0.clone(), pairs[i].1.clone()), value));
            assert(glyph::kern_view(kerns@) =~= glyph::kern_view(before).push((pair, value)));
        }
        i = i + 1;
    }
    assert(all.take(i as int) =~= all);
    KerningInstance { location, kerns, groups }
}

/// A pin on a master is that master's kerning, pair for pair: neither groups
/// nor zeros make a difference.
pub proof fn law_pin_on_a_master_is_verbatim<
    S: Fn(&Vec<Location>, &Location) -> Vec<(Location, Real)>,
    W: Fn(&Vec<(Real, Real)>) -> Real,
>(s: S, w: W, instances: Seq<KerningInstance>, axes: Seq<Tag>, i: int)
    requires
        0 <= i < instances.len(),
        forall|j: int|
            i < j < instances.len() ==> coords::fitted(
                (#[trigger] instances[j]).location@,
                axes,
            ) != coords::fitted(instances[i].location@, axes),
    ensures
        kerns_at(s, w, instances, axes, instances[i].location@) == glyph::kern_view(
            instances[i].kerns@,
        ),
{
    lemma_instance_at_last(instances, axes, i);
}

proof fn lemma_instance_at_last(instances: Seq<KerningInstance>, axes: Seq<Tag>, i: int)
    requires
        0 <= i < instances.len(),
        forall|j: int|
            i < j < instances.len() ==> coords::fitted(
                (#[trigger] instances[j]).location@,
                axes,
            ) != coords::fitted(instances[i].location@, axes),
    ensures
        instance_at(instances, axes, coords::fitted(instances[i].location@, axes)) == Some(i),
    decreases instances.len(),
{
    if i < instances.len() - 1 {
        let rest = instances.drop_last();
        assert(instances[instances.len() - 1] == instances.last());
        assert(forall|j: int| 0 <= j < rest.len() ==> #[trigger] rest[j] == instances[j]);
        lemma_instance_at_last(rest, axes, i);
    }
}

/// A pair that comes to zero survives only as an exception to a group.
pub proof fn law_zero_pairs_are_exceptions<W: Fn(&Vec<(Real, Real)>) -> Real>(
    w: W,
    instances: Seq<KerningInstance>,
    contributing: Seq<(int, Real)>,
    pairs: Seq<PairView>,
    groups: Seq<(GroupView, Seq<Seq<char>>)>,
    i: int,
)
    requires
        0 <= i < pinned_kerns(w, instances, contributing, pairs, groups).len(),
        pinned_kerns(w, instances, contributing, pairs, groups)[i].1 == 0,
    ensures
        ({
            let pair = pinned_kerns(w, instances, contributing, pairs, groups)[i].0;
            is_exception(pair.0, groups, true) || is_exception(pair.1, groups, false)
        }),
    decreases pairs.len(),
{
    let rest = pinned_kerns(w, instances, contributing, pairs.drop_last(), groups);
    if i < rest.len() {
        law_zero_pairs_are_exceptions(w, instances, contributing, pairs.drop_last(), groups, i);
    }
}

/// A master the pin does not reach contributes no pairs: every pair of the
/// instance stands literally in some contributing master.
pub proof fn law_pairs_come_from_contributors<W: Fn(&Vec<(Real, Real)>) -> Real>(
    w: W,
    instances: Seq<KerningInstance>,
    contributing: Seq<(int, Real)>,
    groups: Seq<(GroupView, Seq<Seq<char>>)>,
    i: int,
)
    requires
        0 <= i < pinned_kerns(
            w,
            instances,
            contributing,
            lookup::first_seen(literal_pairs(instances, contributing)),
            groups,
        ).len(),
    ensures
        exists|c: int|
            0 <= c < contributing.len() && pairs_of(
                instances[(#[trigger] contributing[c]).0],
            ).contains(
                pinned_kerns(
                    w,
                    instances,
                    contributing,
                    lookup::first_seen(literal_pairs(instances, contributing)),
                    groups,
                )[i].0,
            ),
{
    let all = literal_pairs(instances, contributing);
    let pairs = lookup::first_seen(all);
    let pair = pinned_kerns(w, instances, contributing, pairs, groups)[i].0;
    lemma_pinned_pairs_are_given(w, instances, contributing, pairs, groups, i);
    lookup::lemma_first_seen_contains(all);
    let k = choose|k: int| 0 <= k < pairs.len() && pairs[k] == pair;
    assert(all.contains(pairs[k]));
    lemma_literal_pairs_source(instances, contributing, pair);
}

proof fn lemma_literal_pairs_source(
    instances: Seq<KerningInstance>,
    contributing: Seq<(int, Real)>,
    pair: PairView,
)
    requires
        literal_pairs(instances, contributing).contains(pair),
    ensures
        exists|c: int|
            0 <= c < contributing.len() && pairs_of(
                instances[(#[trigger] contributing[c]).0],
            ).contains(pair),
    decreases contributing.len(),
{
    if contributing.len() > 0 {
        let before = contributing.drop_last();
        let rest = literal_pairs(instances, before);
        let last = pairs_of(instances[contributing.last().0]);
        let all = literal_pairs(instances, contributing);
        let k = choose|k: int| 0 <= k < all.len() && all[k] == pair;
        if k < rest.len() {
            assert(rest[k] == pair);
            lemma_literal_pairs_source(instances, before, pair);
            let c = choose|c: int|
                0 <= c < before.len() && pairs_of(instances[(#[trigger] before[c]).0]).contains(
                    pair,
                );
            assert(contributing[c] == before[c]);
        } else {
            assert(last[k - rest.len()] == pair);
            assert(contributing[contributing.len() - 1] == contributing.last());
        }
    }
}

proof fn lemma_pinned_pairs_are_given<W: Fn(&Vec<(Real, Real)>) -> Real>(
    w: W,
    instances: Seq<KerningInstance>,
    contributing: Seq<(int, Real)>,
    pairs: Seq<PairView>,
    groups: Seq<(GroupView, Seq<Seq<char>>)>,
    i: int,
)
    requires
        0 <= i < pinned_kerns(w, instances, contributing, pairs, groups).len(),
    ensures
        pairs.contains(pinned_kerns(w, instances, contributing, pairs, groups)[i].0),
    decreases pairs.len(),
{
    let rest = pinned_kerns(w, instances, contributing, pairs.drop_last(), groups);
    if i < rest.len() {
        lemma_pinned_pairs_are_given(w, instances, contributing, pairs.drop_last(), groups, i);
        let k = choose|k: int|
            0 <= k < pairs.drop_last().len() && pairs.drop_last()[k] == rest[i].0;
        assert(pairs[k] == rest[i].0);
    } else {
        assert(pairs[pairs.len() - 1] == pairs.last());
    }
}

proof fn lemma_pinned_pairs_are_keyed<W: Fn(&Vec<(Real, Real)>) -> Real>(
    w: W,
    instances: Seq<KerningInstance>,
    contributing: Seq<(int, Real)>,
    pairs: Seq<PairView>,
    groups: Seq<(GroupView, Seq<Seq<char>>)>,
)
    requires
        pairs.no_duplicates(),
    ensures
        lookup::keyed(pinned_kerns(w, instances, contributing, pairs, groups)),
    decreases pairs.len(),
{
    if pairs.len() > 0 {
        let before = pairs.drop_last();
        let rest = pinned_kerns(w, instances, contributing, before, groups);
        let all = pinned_kerns(w, instances, contributing, pairs, groups);
        lemma_pinned_pairs_are_keyed(w, instances, contributing, before, groups);
        assert forall|i: int, j: int| 0 <= i < j < all.len() implies (#[trigger] all[i]).0 != (
        #[trigger] all[j]).0 by {
            assert(all[i] == rest[i]);
            if j < rest.len() {
                assert(all[j] == rest[j]);
            } else {
                lemma_pinned_pairs_are_given(w, instances, contributing, before, groups, i);
                let k = choose|k: int| 0 <= k < before.len() && before[k] == rest[i].0;
                assert(pairs[k] == rest[i].0);
                assert(pairs[pairs.len() - 1] == all[j].0);
            }
        }
    }
}

/// Of the groups on one side that list a glyph, it belongs to the greatest.
pub proof fn law_a_glyph_is_in_the_greatest_group_that_lists_it(
    groups: Seq<(GroupView, Seq<Seq<char>>)>,
    first: bool,
    name: Seq<char>,
)
    requires
        glyph::groups_ascend(groups),
    ensures
        match group_of(groups, first, name) {
            Some(group) => {
                &&& exists|i: int|
                    0 <= i < groups.len() && lists(#[trigger] groups[i], first, name) && groups[i].0
                        == group
                &&& forall|i: int|
                    0 <= i < groups.len() && lists(#[trigger] groups[i], first, name)
                        ==> groups[i].0 == group || glyph::group_precedes(groups[i].0, group)
            },
            None => forall|i: int|
                0 <= i < groups.len() ==> !lists(#[trigger] groups[i], first, name),
        },
    decreases groups.len(),
{
    if groups.len() > 0 {
        let rest = groups.drop_last();
        let last = groups.len() - 1;
        assert forall|i: int| 0 <= i < rest.len() implies rest[i] == #[trigger] groups[i] by {}
        assert(groups[last] == groups.last());
        assert(glyph::groups_ascend(rest)) by {
            assert forall|i: int, j: int| 0 <= i < j < rest.len() implies glyph::group_precedes(
                (#[trigger] rest[i]).0,
                (#[trigger] rest[j]).0,
            ) by {
                assert(groups[i] == rest[i] && groups[j] == rest[j]);
            }
        }
        law_a_glyph_is_in_the_greatest_group_that_lists_it(rest, first, name);
        if !lists(groups.last(), first, name) {
            if let Some(group) = group_of(rest, first, name) {
                let i = choose|i: int|
                    0 <= i < rest.len() && lists(#[trigger] rest[i], first, name) && rest[i].0
                        == group;
                assert(groups[i] == rest[i]);
            }
        }
    }
}

proof fn lemma_default_groups_are_keyed(instances: Seq<KerningInstance>)
    requires
        forall|i: int| 0 <= i < instances.len() ==> (#[trigger] instances[i]).is_keyed(),
    ensures
        lookup::keyed(default_groups(instances)),
        glyph::groups_ascend(default_groups(instances)),
    decreases instances.len(),
{
    if instances.len() > 0 {
        assert(instances[0].is_keyed());
        let rest = instances.skip(1);
        assert forall|i: int| 0 <= i < rest.len() implies (#[trigger] rest[i]).is_keyed() by {
            assert(rest[i] == instances[i + 1]);
        }
        lemma_default_groups_are_keyed(rest);
    }
}

proof fn lemma_instance_at_is_one(
    instances: Seq<KerningInstance>,
    axes: Seq<Tag>,
    at: Map<Tag, Real>,
)
    ensures
        instance_at(instances, axes, at) matches Some(i) ==> 0 <= i < instances.len(),
    decreases instances.len(),
{
    if instances.len() > 0 {
        lemma_instance_at_is_one(instances.drop_last(), axes, at);
    }
}

/// An instance has each pair once, and each group, in order, if every master
/// has.
pub proof fn law_pinned_kerning_is_keyed<
    S: Fn(&Vec<Location>, &Location) -> Vec<(Location, Real)>,
    W: Fn(&Vec<(Real, Real)>) -> Real,
>(s: S, w: W, instances: Seq<KerningInstance>, axes: Seq<Tag>, pin: Map<Tag, Real>)
    requires
        forall|i: int| 0 <= i < instances.len() ==> (#[trigger] instances[i]).is_keyed(),
    ensures
        lookup::keyed(kerns_at(s, w, instances, axes, pin)),
        lookup::keyed(default_groups(instances)),
        glyph::groups_ascend(default_groups(instances)),
{
    lemma_default_groups_are_keyed(instances);
    let at = coords::fitted(pin, axes);
    lemma_instance_at_is_one(instances, axes, at);
    match instance_at(instances, axes, at) {
        Some(i) => {
            assert(instances[i].is_keyed());
        },
        None => {
            let weights = numeric::scalars_of(s, master_places(instances, axes), pin);
            let contributing = contributors(instances, axes, weights);
            let all = literal_pairs(instances, contributing);
            lookup::lemma_first_seen_contains(all);
            lemma_pinned_pairs_are_keyed(
                w,
                instances,
                contributing,
                lookup::first_seen(all),
                default_groups(instances),
            );
        },
    }
}

/// What a master literally says of a pair is what the first entry for the pair
/// says, and nothing exactly if there is no entry for it.
pub proof fn law_the_first_entry_for_a_pair_counts(
    kerns: Seq<(PairView, Real)>,
    pair: PairView,
    k: int,
)
    ensures
        literal_kern(kerns, pair) is None <==> forall|i: int|
            0 <= i < kerns.len() ==> (#[trigger] kerns[i]).0 != pair,
        0 <= k < kerns.len() && kerns[k].0 == pair && (forall|i: int|
            0 <= i < k ==> (#[trigger] kerns[i]).0 != pair) ==> literal_kern(kerns, pair) == Some(
            kerns[k].1,
        ),
    decreases kerns.len(),
{
    if kerns.len() > 0 {
        let rest = kerns.drop_last();
        law_the_first_entry_for_a_pair_counts(rest, pair, k);
        assert forall|i: int| 0 <= i < rest.len() implies rest[i] == #[trigger] kerns[i] by {}
        assert(kerns[kerns.len() - 1] == kerns.last());
        if forall|i: int| 0 <= i < rest.len() ==> (#[trigger] rest[i]).0 != pair {
            assert forall|i: int| 0 <= i < kerns.len() - 1 implies (#[trigger] kerns[i]).0 != pair by {
                assert(rest[i] == kerns[i]);
            }
        } else {
            let i = choose|i: int| 0 <= i < rest.len() && (#[trigger] rest[i]).0 == pair;
            assert(kerns[i].0 == pair);
        }
        if 0 <= k < rest.len() {
            assert(rest[k] == kerns[k]);
        }
    }
}

/// What a master says of two glyphs goes from the particular to the general:
/// the pair itself, then the group of the first with the second, then the first
/// with the group of the second, then the two groups, and then zero.
pub proof fn law_kerning_goes_from_the_particular_to_the_general(
    kerns: Seq<(PairView, Real)>,
    one: Seq<char>,
    two: Seq<char>,
    groups: Seq<(GroupView, Seq<Seq<char>>)>,
    group1: GroupView,
    group2: GroupView,
)
    requires
        group_of(groups, true, one) == Some(group1),
        group_of(groups, false, two) == Some(group2),
    ensures
        ({
            let (a, b) = (SideView::Glyph(one), SideView::Glyph(two));
            let (g, h) = (SideView::Group(group1), SideView::Group(group2));
            let said = |x: SideView, y: SideView| literal_kern(kerns, (x, y));
            let r = resolved_kern(kerns, (a, b), groups);
            &&& said(a, b) matches Some(v) ==> r == v
            &&& said(a, b) is None ==> (said(g, b) matches Some(v) ==> r == v)
            &&& said(a, b) is None && said(g, b) is None ==> (said(a, h) matches Some(v) ==> r == v)
            &&& said(a, b) is None && said(g, b) is None && said(a, h) is None ==> (said(
                g,
                h,
            ) matches Some(v) ==> r == v)
            &&& said(a, b) is None && said(g, b) is None && said(a, h) is None && said(g, h) is None
                ==> r == 0
        }),
{
}

/// A glyph without a group is only ever itself, and a group is never one of its
/// glyphs.
pub proof fn law_sides_are_not_taken_for_others(
    kerns: Seq<(PairView, Real)>,
    one: Seq<char>,
    two: Seq<char>,
    group: GroupView,
    other: GroupView,
    groups: Seq<(GroupView, Seq<Seq<char>>)>,
)
    ensures
        group_of(groups, true, one) is None && group_of(groups, false, two) is None
            ==> resolved_kern(kerns, (SideView::Glyph(one), SideView::Glyph(two)), groups) == (
        match literal_kern(kerns, (SideView::Glyph(one), SideView::Glyph(two))) {
            Some(v) => v,
            None => 0,
        }),
        resolved_kern(kerns, (SideView::Group(group), SideView::Group(other)), groups) == (
        match literal_kern(kerns, (SideView::Group(group), SideView::Group(other))) {
            Some(v) => v,
            None => 0,
        }),
        group_of(groups, false, two) is None ==> resolved_kern(
            kerns,
            (SideView::Group(group), SideView::Glyph(two)),
            groups,
        ) == (match literal_kern(kerns, (SideView::Group(group), SideView::Glyph(two))) {
            Some(v) => v,
            None => 0,
        }),
        group_of(groups, true, one) is None ==> resolved_kern(
            kerns,
            (SideView::Glyph(one), SideView::Group(other)),
            groups,
        ) == (match literal_kern(kerns, (SideView::Glyph(one), SideView::Group(other))) {
            Some(v) => v,
            None => 0,
        }),
{
}

/// The groups on the first side are for glyphs on the first side, and those on
/// the second for glyphs on the second.
pub proof fn law_groups_are_for_one_side(
    groups: Seq<(GroupView, Seq<Seq<char>>)>,
    name: Seq<char>,
)
    ensures
        group_of(groups, true, name) matches Some(group) ==> group is Side1,
        group_of(groups, false, name) matches Some(group) ==> group is Side2,
    decreases groups.len(),
{
    if groups.len() > 0 {
        law_groups_are_for_one_side(groups.drop_last(), name);
    }
}

/// Each pair has the weighted sum of what the contributing masters say of it,
/// in their order. One that comes to zero goes, unless one of its sides is a
/// glyph that belongs to a group.
pub proof fn law_pairs_have_their_weighted_sums<W: Fn(&Vec<(Real, Real)>) -> Real>(
    w: W,
    instances: Seq<KerningInstance>,
    contributing: Seq<(int, Real)>,
    pairs: Seq<PairView>,
    pair: PairView,
    groups: Seq<(GroupView, Seq<Seq<char>>)>,
)
    ensures
        pinned_kerns(w, instances, contributing, Seq::empty(), groups).len() == 0,
        ({
            let terms = contributing.map_values(
                |c: (int, Real)|
                    (resolved_kern(glyph::kern_view(instances[c.0].kerns@), pair, groups), c.1),
            );
            let value = numeric::sum_of(w, terms);
            let so_far = pinned_kerns(w, instances, contributing, pairs, groups);
            let grouped = (pair.0 matches SideView::Glyph(name) && group_of(groups, true, name)
                is Some) || (pair.1 matches SideView::Glyph(name) && group_of(groups, false, name)
                is Some);
            pinned_kerns(w, instances, contributing, pairs.push(pair), groups) == if value != 0
                || grouped {
                so_far.push((pair, value))
            } else {
                so_far
            }
        }),
{
    let terms = contributing.map_values(
        |c: (int, Real)|
            (resolved_kern(glyph::kern_view(instances[c.0].kerns@), pair, groups), c.1),
    );
    assert(terms =~= kern_terms(instances, contributing, pair, groups));
    assert(pairs.push(pair).drop_last() =~= pairs);
}

proof fn lemma_instance_at_is_the_last(
    instances: Seq<KerningInstance>,
    axes: Seq<Tag>,
    at: Map<Tag, Real>,
)
    ensures
        match instance_at(instances, axes, at) {
            Some(k) => 0 <= k < instances.len() && coords::fitted(instances[k].location@, axes) == at
                && forall|i: int|
                k < i < instances.len() ==> coords::fitted((#[trigger] instances[i]).location@, axes)
                    != at,
            None => forall|i: int|
                0 <= i < instances.len() ==> coords::fitted(
                    (#[trigger] instances[i]).location@,
                    axes,
                ) != at,
        },
    decreases instances.len(),
{
    if instances.len() > 0 {
        let rest = instances.drop_last();
        lemma_instance_at_is_the_last(rest, axes, at);
        assert forall|i: int| 0 <= i < rest.len() implies rest[i] == #[trigger] instances[i] by {}
    }
}

/// A master contributes exactly if its weight is not zero and it has kerning;
/// the last that is where it is counts.
pub proof fn law_kerning_masters_with_a_weight_contribute(
    instances: Seq<KerningInstance>,
    axes: Seq<Tag>,
    weights: Seq<(Map<Tag, Real>, Real)>,
    at: Map<Tag, Real>,
    weight: Real,
    k: int,
)
    ensures
        contributors(instances, axes, Seq::empty()).len() == 0,
        weight == 0 ==> contributors(instances, axes, weights.push((at, weight))) == contributors(
            instances,
            axes,
            weights,
        ),
        (forall|i: int|
            0 <= i < instances.len() ==> coords::fitted((#[trigger] instances[i]).location@, axes)
                != at) ==> contributors(instances, axes, weights.push((at, weight)))
            == contributors(instances, axes, weights),
        weight != 0 && 0 <= k < instances.len() && coords::fitted(instances[k].location@, axes) == at
            && (forall|i: int|
            k < i < instances.len() ==> coords::fitted((#[trigger] instances[i]).location@, axes)
                != at) ==> contributors(instances, axes, weights.push((at, weight)))
            == contributors(instances, axes, weights).push((k, weight)),
{
    assert(weights.push((at, weight)).drop_last() =~= weights);
    lemma_instance_at_is_the_last(instances, axes, at);
}

/// A pin that is where a master is, on the axes of the font, has the pairs of
/// that master as they are: of two masters at one place, those of the later.
pub proof fn law_a_pin_where_a_master_is_has_its_pairs<
    S: Fn(&Vec<Location>, &Location) -> Vec<(Location, Real)>,
    W: Fn(&Vec<(Real, Real)>) -> Real,
>(
    s: S,
    w: W,
    instances: Seq<KerningInstance>,
    axes: Seq<Tag>,
    pin: Map<Tag, Real>,
    k: int,
    p: int,
)
    requires
        0 <= k < instances.len(),
        coords::fitted(instances[k].location@, axes) == coords::fitted(pin, axes),
        forall|i: int|
            k < i < instances.len() ==> coords::fitted((#[trigger] instances[i]).location@, axes)
                != coords::fitted(pin, axes),
        0 <= p < instances[k].kerns@.len(),
    ensures
        kerns_at(s, w, instances, axes, pin).len() == instances[k].kerns@.len(),
        kerns_at(s, w, instances, axes, pin)[p] == (
            (instances[k].kerns@[p].0.0@, instances[k].kerns@[p].0.1@),
            instances[k].kerns@[p].1,
        ),
{
    lemma_instance_at_is_the_last(instances, axes, coords::fitted(pin, axes));
}

/// The groups of an instance are those of the first master that is at zero on
/// every axis it names.
pub proof fn law_groups_are_those_of_the_default_master(
    instances: Seq<KerningInstance>,
    k: int,
    off: spec_fn(int) -> Tag,
)
    requires
        0 <= k < instances.len(),
        forall|t: Tag| #[trigger]
            instances[k].location@.contains_key(t) ==> instances[k].location@[t] == 0,
        forall|i: int|
            0 <= i < k ==> (#[trigger] instances[i]).location@.contains_key(off(i))
                && instances[i].location@[off(i)] != 0,
    ensures
        default_groups(instances) == glyph::group_view(instances[k].groups@),
    decreases instances.len(),
{
    if k > 0 {
        assert(instances[0].location@.contains_key(off(0)));
        let rest = instances.skip(1);
        assert(rest[k - 1] == instances[k]);
        let later = |i: int| off(i + 1);
        assert forall|i: int| 0 <= i < k - 1 implies (#[trigger] rest[i]).location@.contains_key(
            later(i),
        ) && rest[i].location@[later(i)] != 0 by {
            assert(rest[i] == instances[i + 1]);
        }
        law_groups_are_those_of_the_default_master(rest, k - 1, later);
    }
}

/// The pairs that are looked at are those that the contributing masters have,
/// one master after the other.
pub proof fn law_pairs_are_taken_master_by_master(
    instances: Seq<KerningInstance>,
    contributing: Seq<(int, Real)>,
    i: int,
    weight: Real,
    p: int,
)
    requires
        0 <= i < instances.len(),
        0 <= p < instances[i].kerns@.len(),
    ensures
        literal_pairs(instances, Seq::empty()).len() == 0,
        literal_pairs(instances, contributing.push((i, weight))).len() == literal_pairs(
            instances,
            contributing,
        ).len() + instances[i].kerns@.len(),
        literal_pairs(instances, contributing.push((i, weight)))[literal_pairs(
            instances,
            contributing,
        ).len() + p] == (instances[i].kerns@[p].0.0@, instances[i].kerns@[p].0.1@),
{
    assert(contributing.push((i, weight)).drop_last() =~= contributing);
}

} // verus!
