//! The bookkeeping around a `CFF2` table: which masters a glyph takes part in,
//! which variation store index that participation earns, and what the Private
//! DICT blends against.

use crate::cff;
use crate::cff::{PathEl, PrivateDictValues};
use crate::coords;
use crate::coords::{Location, Real, Tag};
use crate::error::{Error, GlyphProblem};
use crate::lookup;
use crate::numeric;
use crate::static_metadata::{PostscriptSettings, StaticMetadata};
use crate::text;
use vstd::prelude::*;

verus! {

/// Where a region rises, peaks and falls on one axis.
#[derive(Debug, Clone, Copy, PartialEq, Eq, Structural)]
pub struct Tent {
    pub min: Real,
    pub peak: Real,
    pub max: Real,
}

/// A part of design space: a tent per axis, in ascending order of tag.
#[derive(Debug, PartialEq, Eq)]
pub struct VariationRegion {
    pub tents: Vec<(Tag, Tent)>,
}

impl View for VariationRegion {
    type V = Seq<(Tag, Tent)>;

    open spec fn view(&self) -> Seq<(Tag, Tent)> {
        self.tents@
    }
}

impl Clone for VariationRegion {
    fn clone(&self) -> (r: VariationRegion)
        ensures
            r@ == self@,
    {
        let mut tents: Vec<(Tag, Tent)> = Vec::new();
        let mut i: usize = 0;
        while i < self.tents.len()
            invariant
                i <= self.tents@.len(),
                tents@ =~= self.tents@.take(i as int),
            decreases self.tents.len() - i,
        {
            tents.push(self.tents[i]);
            i = i + 1;
        }
        assert(tents@ =~= self.tents@);
        VariationRegion { tents }
    }
}

impl VariationRegion {
    /// The tent on an axis, if the region names it.
    pub fn get(&self, tag: Tag) -> (r: Option<Tent>)
        ensures
            match r {
                Some(tent) => exists|i: int|
                    0 <= i < self@.len() && self@[i] == (tag, tent) && forall|j: int|
                        0 <= j < i ==> (#[trigger] self@[j]).0 != tag,
                None => forall|j: int| 0 <= j < self@.len() ==> (#[trigger] self@[j]).0 != tag,
            },
    {
        let mut i: usize = 0;
        while i < self.tents.len()
            invariant
                i <= self.tents@.len(),
                forall|j: int| 0 <= j < i ==> (#[trigger] self@[j]).0 != tag,
            decreases self.tents.len() - i,
        {
            if self.tents[i].0 == tag {
                assert(self@[i as int] == (tag, self@[i as int].1));
                return Some(self.tents[i].1);
            }
            i = i + 1;
        }
        None
    }

    /// Whether two regions have the same tents.
    fn same(&self, other: &VariationRegion) -> (r: bool)
        ensures
            r == (self@ == other@),
    {
        if self.tents.len() != other.tents.len() {
            return false;
        }
        let mut i: usize = 0;
        while i < self.tents.len()
            invariant
                i <= self.tents@.len(),
                self.tents@.len() == other.tents@.len(),
                forall|j: int| 0 <= j < i ==> self.tents@[j] == other.tents@[j],
            decreases self.tents.len() - i,
        {
            if self.tents[i].0 != other.tents[i].0 || self.tents[i].1 != other.tents[i].1 {
                assert(self@[i as int] != other@[i as int]);
                return false;
            }
            i = i + 1;
        }
        assert(self@ =~= other@);
        true
    }
}

/// The variation store a font needs: an index per distinct set of
/// participating masters, numbered by first encounter in glyph order.
#[derive(Debug)]
pub struct VarStorePlan {
    /// The region list, in the order regions are first seen across all the
    /// sub-models, each once.
    pub regions: Vec<VariationRegion>,
    /// One list of region indices per variation store index, each in its own
    /// sub-model's order rather than sorted.
    pub subtables: Vec<Vec<u16>>,
    /// The participation each index was allocated for.
    pub masks: Vec<Vec<bool>>,
}

/// What a plan holds.
#[verifier::ext_equal]
pub struct PlanState {
    pub regions: Seq<Seq<(Tag, Tent)>>,
    pub subtables: Seq<Seq<u16>>,
    pub masks: Seq<Seq<bool>>,
}

/// The tents of each region of a list.
pub open spec fn tents_of(regions: Seq<VariationRegion>) -> Seq<Seq<(Tag, Tent)>> {
    regions.map_values(|r: VariationRegion| r@)
}

impl View for VarStorePlan {
    type V = PlanState;

    open spec fn view(&self) -> PlanState {
        PlanState {
            regions: tents_of(self.regions@),
            subtables: self.subtables@.map_values(|s: Vec<u16>| s@),
            masks: self.masks@.map_values(|m: Vec<bool>| m@),
        }
    }
}

impl PlanState {
    /// No region and no set of masters comes twice, and every set of masters
    /// has its subtable.
    pub open spec fn wf(self) -> bool {
        &&& self.regions.no_duplicates()
        &&& self.masks.no_duplicates()
        &&& self.subtables.len() == self.masks.len()
    }
}

/// `known` with the regions among `supports` that are new to it at its end, in
/// the order they are first seen.
pub open spec fn with_regions(
    known: Seq<Seq<(Tag, Tent)>>,
    supports: Seq<Seq<(Tag, Tent)>>,
) -> Seq<Seq<(Tag, Tent)>>
    decreases supports.len(),
{
    if supports.len() == 0 {
        known
    } else {
        let so_far = with_regions(known, supports.drop_last());
        if so_far.contains(supports.last()) {
            so_far
        } else {
            so_far.push(supports.last())
        }
    }
}

/// The regions of a model that have deltas: all but the first, which is the
/// default master's.
pub open spec fn supports_of(model_regions: Seq<Seq<(Tag, Tent)>>) -> Seq<Seq<(Tag, Tent)>> {
    if model_regions.len() == 0 {
        seq![]
    } else {
        model_regions.skip(1)
    }
}

/// What a plan becomes when masters `mask`, whose model has these regions, ask
/// for an index, and which index they get.
///
/// Masters that already have one get it again.
pub open spec fn claim(
    plan: PlanState,
    mask: Seq<bool>,
    model_regions: Seq<Seq<(Tag, Tent)>>,
) -> (PlanState, u16) {
    if plan.masks.contains(mask) {
        (plan, plan.masks.index_of(mask) as u16)
    } else {
        let supports = supports_of(model_regions);
        let regions = with_regions(plan.regions, supports);
        (
            PlanState {
                regions,
                subtables: plan.subtables.push(
                    supports.map_values(|s: Seq<(Tag, Tent)>| regions.index_of(s) as u16),
                ),
                masks: plan.masks.push(mask),
            },
            plan.subtables.len() as u16,
        )
    }
}

proof fn lemma_with_regions(
    known: Seq<Seq<(Tag, Tent)>>,
    supports: Seq<Seq<(Tag, Tent)>>,
)
    requires
        known.no_duplicates(),
    ensures
        with_regions(known, supports).no_duplicates(),
        known.len() <= with_regions(known, supports).len(),
        with_regions(known, supports).take(known.len() as int) == known,
        forall|i: int|
            0 <= i < supports.len() ==> with_regions(known, supports).contains(
                #[trigger] supports[i],
            ),
    decreases supports.len(),
{
    if supports.len() == 0 {
        assert(known.take(known.len() as int) =~= known);
    } else {
        let rest = supports.drop_last();
        lemma_with_regions(known, rest);
        let so_far = with_regions(known, rest);
        let all = with_regions(known, supports);
        assert(all.take(known.len() as int) =~= so_far.take(known.len() as int));
        assert forall|i: int| 0 <= i < supports.len() implies all.contains(
            #[trigger] supports[i],
        ) by {
            if i < rest.len() {
                assert(rest[i] == supports[i]);
                let k = choose|k: int| 0 <= k < so_far.len() && so_far[k] == supports[i];
                assert(all[k] == supports[i]);
            } else if !so_far.contains(supports.last()) {
                assert(all[so_far.len() as int] == supports[i]);
            }
        }
    }
}

/// Where a region stands does not change as later ones are added.
proof fn lemma_index_is_stable(
    known: Seq<Seq<(Tag, Tent)>>,
    supports: Seq<Seq<(Tag, Tent)>>,
    region: Seq<(Tag, Tent)>,
)
    requires
        known.no_duplicates(),
        known.contains(region),
    ensures
        with_regions(known, supports).index_of(region) == known.index_of(region),
{
    lemma_with_regions(known, supports);
    let all = with_regions(known, supports);
    let i = known.index_of(region);
    assert(all.take(known.len() as int)[i] == region);
    assert(all[i] == region);
    let j = all.index_of(region);
    assert(all[j] == region);
}

fn same_mask(a: &Vec<bool>, b: &Vec<bool>) -> (r: bool)
    ensures
        r == (a@ == b@),
{
    if a.len() != b.len() {
        return false;
    }
    let mut i: usize = 0;
    while i < a.len()
        invariant
            i <= a@.len(),
            a@.len() == b@.len(),
            forall|j: int| 0 <= j < i ==> a@[j] == b@[j],
        decreases a.len() - i,
    {
        if a[i] != b[i] {
            return false;
        }
        i = i + 1;
    }
    assert(a@ =~= b@);
    true
}

fn copy_mask(mask: &Vec<bool>) -> (r: Vec<bool>)
    ensures
        r@ == mask@,
{
    let mut r: Vec<bool> = Vec::new();
    let mut i: usize = 0;
    while i < mask.len()
        invariant
            i <= mask@.len(),
            r@ =~= mask@.take(i as int),
        decreases mask.len() - i,
    {
        r.push(mask[i]);
        i = i + 1;
    }
    assert(r@ =~= mask@);
    r
}

impl VarStorePlan {
    pub fn new() -> (r: VarStorePlan)
        ensures
            r@ == (PlanState { regions: seq![], subtables: seq![], masks: seq![] }),
            r@.wf(),
    {
        let r = VarStorePlan { regions: Vec::new(), subtables: Vec::new(), masks: Vec::new() };
        assert(r@ =~= PlanState { regions: seq![], subtables: seq![], masks: seq![] });
        r
    }

    /// Where a region stands in the list, after adding it if it is new.
    fn region_index(&mut self, support: &VariationRegion) -> (r: usize)
        requires
            old(self)@.regions.no_duplicates(),
        ensures
            final(self)@.regions == with_regions(old(self)@.regions, seq![support@]),
            final(self)@.subtables == old(self)@.subtables,
            final(self)@.masks == old(self)@.masks,
            r == final(self)@.regions.index_of(support@),
    {
        proof {
            reveal_with_fuel(with_regions, 2);
            assert(seq![support@].drop_last() =~= seq![]);
            assert(seq![support@].last() == support@);
            lemma_with_regions(self@.regions, seq![support@]);
        }
        let mut i: usize = 0;
        while i < self.regions.len()
            invariant
                i <= self.regions@.len(),
                *self == *old(self),
                self@.regions.no_duplicates(),
                forall|j: int| 0 <= j < i ==> (#[trigger] self@.regions[j]) != support@,
            decreases self.regions.len() - i,
        {
            if self.regions[i].same(support) {
                assert(self@.regions[i as int] == support@);
                proof {
                    reveal_with_fuel(with_regions, 2);
                    assert(seq![support@].drop_last() =~= seq![]);
                    assert(self@.regions.index_of(support@) == i);
                }
                return i;
            }
            assert(self@.regions[i as int] != support@);
            i = i + 1;
        }
        assert(!self@.regions.contains(support@));
        self.regions.push(support.clone());
        proof {
            assert(self@.regions =~= old(self)@.regions.push(support@));
            assert(self@.regions[i as int] == support@);
        }
        i
    }

    /// The index of the variation data that a glyph drawn by these masters
    /// blends against. `model_regions` are the regions of the model over just
    /// those masters.
    ///
    /// Indices are stored in sixteen bits.
    pub fn vsindex_for(&mut self, mask: &Vec<bool>, model_regions: &Vec<VariationRegion>) -> (r:
        u16)
        requires
            old(self)@.wf(),
        ensures
            final(self)@.wf(),
            (final(self)@, r) == claim(old(self)@, mask@, tents_of(model_regions@)),
    {
        let mut i: usize = 0;
        while i < self.masks.len()
            invariant
                i <= self.masks@.len(),
                *self == *old(self),
                self@.wf(),
                forall|j: int| 0 <= j < i ==> (#[trigger] self@.masks[j]) != mask@,
            decreases self.masks.len() - i,
        {
            if same_mask(&self.masks[i], mask) {
                proof {
                    assert(self@.masks[i as int] == mask@);
                    assert(self@.masks.index_of(mask@) == i);
                }
                return i as u16;
            }
            assert(self@.masks[i as int] != mask@);
            i = i + 1;
        }
        let ghost all = supports_of(tents_of(model_regions@));
        let ghost known = self@.regions;
        let mut indices: Vec<u16> = Vec::new();
        let mut k: usize = 1;
        while k < model_regions.len()
            invariant
                1 <= k,
                k - 1 <= all.len(),
                all.len() > 0 ==> all.len() == model_regions@.len() - 1,
                all == supports_of(tents_of(model_regions@)),
                known.no_duplicates(),
                known == old(self)@.regions,
                self@.regions == with_regions(known, all.take(k - 1)),
                self@.subtables == old(self)@.subtables,
                self@.masks == old(self)@.masks,
                indices@.len() == k - 1,
                forall|j: int|
                    0 <= j < k - 1 ==> self@.regions.contains(#[trigger] all[j]) && indices@[j]
                        == self@.regions.index_of(all[j]) as u16,
            decreases model_regions.len() - k,
        {
            let ghost before = self@.regions;
            let ghost region = model_regions@[k as int]@;
            proof {
                lemma_with_regions(known, all.take(k - 1));
            }
            let index: usize = self.region_index(&model_regions[k]);
            indices.push(index as u16);
            proof {
                assert(all[k - 1] == region);
                assert(all.take(k as int).drop_last() =~= all.take(k - 1));
                assert(all.take(k as int).last() == region);
                reveal_with_fuel(with_regions, 2);
                assert(seq![region].drop_last() =~= seq![]);
                lemma_with_regions(before, seq![region]);
                assert(seq![region][0] == region);
                assert forall|j: int| 0 <= j < k implies self@.regions.contains(#[trigger] all[j])
                    && indices@[j] == self@.regions.index_of(all[j]) as u16 by {
                    if j < k - 1 {
                        lemma_index_is_stable(before, seq![region], all[j]);
                        let n = before.index_of(all[j]);
                        assert(self@.regions[n] == all[j]) by {
                            assert(self@.regions.take(before.len() as int)[n] == all[j]);
                        }
                    }
                }
            }
            k = k + 1;
        }
        assert(all.take(all.len() as int) =~= all);
        assert(all.take(k - 1) =~= all);
        let vsindex: u16 = self.subtables.len() as u16;
        proof {
            lemma_with_regions(known, all);
            assert(indices@ =~= all.map_values(
                |s: Seq<(Tag, Tent)>| self@.regions.index_of(s) as u16,
            ));
            assert(!self@.masks.contains(mask@));
        }
        let ghost now = self@;
        self.subtables.push(indices);
        self.masks.push(copy_mask(mask));
        proof {
            assert(self@.regions =~= now.regions);
            assert(self@.subtables =~= now.subtables.push(indices@));
            assert(self@.masks =~= now.masks.push(mask@));
            assert(self@ =~= claim(old(self)@, mask@, tents_of(model_regions@)).0);
        }
        vsindex
    }
}

/// Masters that ask again get the index they have, and change nothing.
pub proof fn law_same_masters_same_index(
    plan: PlanState,
    mask: Seq<bool>,
    regions: Seq<Seq<(Tag, Tent)>>,
    again: Seq<Seq<(Tag, Tent)>>,
)
    requires
        plan.wf(),
    ensures
        claim(claim(plan, mask, regions).0, mask, again) == claim(plan, mask, regions),
{
    let (after, index) = claim(plan, mask, regions);
    if !plan.masks.contains(mask) {
        let n = plan.masks.len() as int;
        assert(after.masks[n] == mask);
        let k = after.masks.index_of(mask);
        assert(after.masks[k] == mask);
        if k < n {
            assert(plan.masks[k] == mask);
        }
        assert(k == n);
    }
}

/// Indices are minted in the order sets of masters are first seen: a new set
/// gets the next number, and everything minted before stays as it was.
pub proof fn law_indices_are_minted_in_first_seen_order(
    plan: PlanState,
    mask: Seq<bool>,
    regions: Seq<Seq<(Tag, Tent)>>,
)
    requires
        plan.wf(),
        !plan.masks.contains(mask),
        plan.masks.len() <= u16::MAX,
    ensures
        claim(plan, mask, regions).1 == plan.masks.len(),
        claim(plan, mask, regions).0.masks.take(plan.masks.len() as int) == plan.masks,
        claim(plan, mask, regions).0.subtables.take(plan.subtables.len() as int) == plan.subtables,
        claim(plan, mask, regions).0.regions.take(plan.regions.len() as int) == plan.regions,
{
    lemma_with_regions(plan.regions, supports_of(regions));
    let after = claim(plan, mask, regions).0;
    assert(after.masks.take(plan.masks.len() as int) =~= plan.masks);
    assert(after.subtables.take(plan.subtables.len() as int) =~= plan.subtables);
}

/// The subtable of a new set of masters lists, in the model's own order, where
/// each of the model's regions stands.
pub proof fn law_subtables_point_at_the_models_regions(
    plan: PlanState,
    mask: Seq<bool>,
    regions: Seq<Seq<(Tag, Tent)>>,
    i: int,
)
    requires
        plan.wf(),
        !plan.masks.contains(mask),
        claim(plan, mask, regions).0.regions.len() <= u16::MAX + 1,
        0 <= i < supports_of(regions).len(),
    ensures
        ({
            let after = claim(plan, mask, regions).0;
            let subtable = after.subtables.last();
            &&& subtable.len() == supports_of(regions).len()
            &&& subtable[i] < after.regions.len()
            &&& after.regions[subtable[i] as int] == supports_of(regions)[i]
        }),
{
    lemma_with_regions(plan.regions, supports_of(regions));
    let after = claim(plan, mask, regions).0;
    let region = supports_of(regions)[i];
    assert(after.regions.contains(region));
    let n = after.regions.index_of(region);
    assert(after.regions[n] == region);
}

/// A number in a DICT: a whole one, or a real one by its rank.
#[derive(Debug, Clone, Copy, PartialEq, Eq, Structural)]
pub enum Number {
    Int(i64),
    Real(Real),
}

/// A value of the default master, and a delta per region if it varies.
#[derive(Debug, PartialEq, Eq)]
pub struct Blend {
    pub default: Number,
    pub deltas: Vec<Number>,
}

impl Blend {
    /// A value that every master shares.
    pub fn scalar(default: Number) -> (r: Blend)
        ensures
            r.default == default,
            r.deltas@ == Seq::<Number>::empty(),
    {
        Blend { default, deltas: Vec::new() }
    }

    pub fn new(default: Number, deltas: Vec<Number>) -> (r: Blend)
        ensures
            r.default == default,
            r.deltas@ == deltas@,
    {
        Blend { default, deltas }
    }

    /// Whether there are deltas at all.
    pub fn varies(&self) -> (r: bool)
        ensures
            r == (self.deltas@.len() > 0),
    {
        self.deltas.len() > 0
    }
}

/// `deltas` is what `f` may answer for these values of masters at `places`: the
/// default's own first, then one delta per region.
pub open spec fn answers<F: Fn(&Vec<Location>, &Vec<Number>) -> Vec<Number>>(
    f: F,
    places: Seq<Map<Tag, Real>>,
    values: Seq<Number>,
    deltas: Seq<Number>,
) -> bool {
    exists|p: Vec<Location>, v: Vec<Number>, d: Vec<Number>|
        coords::places(p@) == places && v@ == values && d@ == deltas && #[trigger] call_ensures(
            f,
            (&p, &v),
            d,
        )
}

/// `f` can be asked about masters anywhere, and always has a delta for the
/// default one.
pub open spec fn is_model<F: Fn(&Vec<Location>, &Vec<Number>) -> Vec<Number>>(f: F) -> bool {
    &&& forall|p: Vec<Location>, v: Vec<Number>| call_requires(f, (&p, &v))
    &&& forall|p: Vec<Location>, v: Vec<Number>, d: Vec<Number>|
        #[trigger] call_ensures(f, (&p, &v), d) ==> d@.len() > 0
}

pub open spec fn same_throughout(values: Seq<Number>) -> bool {
    forall|i: int, j: int| 0 <= i < values.len() && 0 <= j < values.len() ==> values[i] == values[j]
}

/// What `values` blend to: the default's value alone when they all agree, the
/// model's deltas when they do not.
pub open spec fn blends_to<F: Fn(&Vec<Location>, &Vec<Number>) -> Vec<Number>>(
    f: F,
    places: Seq<Map<Tag, Real>>,
    values: Seq<Number>,
    r: Blend,
) -> bool {
    if same_throughout(values) {
        r.default == values[0] && r.deltas@.len() == 0
    } else {
        exists|d: Seq<Number>| #[trigger]
            answers(f, places, values, d) && r.default == d[0] && r.deltas@ == d.skip(1)
    }
}

fn all_equal(values: &Vec<Number>) -> (r: bool)
    ensures
        r == same_throughout(values@),
{
    let mut i: usize = 1;
    while i < values.len()
        invariant
            1 <= i,
            forall|j: int| 0 <= j < i && j < values@.len() ==> #[trigger] values@[j] == values@[0],
        decreases values.len() - i,
    {
        if values[i] != values[i - 1] {
            return false;
        }
        i = i + 1;
    }
    true
}

fn without_first(values: &Vec<Number>) -> (r: Vec<Number>)
    requires
        values@.len() > 0,
    ensures
        r@ == values@.skip(1),
{
    let mut r: Vec<Number> = Vec::new();
    let mut i: usize = 1;
    while i < values.len()
        invariant
            1 <= i <= values@.len(),
            r@ =~= values@.subrange(1, i as int),
        decreases values.len() - i,
    {
        r.push(values[i]);
        i = i + 1;
    }
    assert(r@ =~= values@.skip(1));
    r
}

/// A blended scalar: the masters' values, or just the default's when they all
/// agree.
pub fn blend_scalar<F: Fn(&Vec<Location>, &Vec<Number>) -> Vec<Number>>(
    values: &Vec<Number>,
    places: &Vec<Location>,
    model: &F,
) -> (r: Blend)
    requires
        values@.len() > 0,
        is_model(*model),
    ensures
        blends_to(*model, coords::places(places@), values@, r),
{
    if all_equal(values) {
        return Blend::scalar(values[0]);
    }
    let deltas: Vec<Number> = model(places, values);
    assert(answers(*model, coords::places(places@), values@, deltas@));
    Blend::new(deltas[0], without_first(&deltas))
}

/// What each list of a series holds.
pub open spec fn lists(masters: Seq<Vec<i32>>) -> Seq<Seq<i32>> {
    masters.map_values(|m: Vec<i32>| m@)
}

/// The length of the shortest list.
pub open spec fn shortest(masters: Seq<Seq<i32>>) -> nat
    decreases masters.len(),
{
    if masters.len() == 0 {
        0
    } else if masters.len() == 1 {
        masters[0].len()
    } else {
        let rest = shortest(masters.drop_last());
        if masters.last().len() < rest {
            masters.last().len()
        } else {
            rest
        }
    }
}

/// A row of the masters' lists, each value relative to the row before.
pub open spec fn relative_row(masters: Seq<Seq<i32>>, row: int) -> Seq<Number> {
    Seq::new(
        masters.len(),
        |m: int|
            Number::Int(
                (masters[m][row] - (if row > 0 {
                    masters[m][row - 1] as int
                } else {
                    0int
                })) as i64,
            ),
    )
}

/// Whether any row differs between masters.
pub open spec fn any_row_varies(masters: Seq<Seq<i32>>) -> bool {
    exists|row: int|
        0 <= row < shortest(masters) && !same_throughout(#[trigger] relative_row(masters, row))
}

pub open spec fn some_list_empty(masters: Seq<Seq<i32>>) -> bool {
    exists|m: int| 0 <= m < masters.len() && (#[trigger] masters[m]).len() == 0
}

/// What a list that the masters state blends to.
///
/// Nothing if the default master states nothing, and the default master's own
/// list if another master states nothing. Otherwise a row for each that every
/// master has: the default master's value and, if any row of the list varies
/// at all, the deltas of the relative values.
pub open spec fn list_blends_to<F: Fn(&Vec<Location>, &Vec<Number>) -> Vec<Number>>(
    f: F,
    places: Seq<Map<Tag, Real>>,
    default: Seq<i32>,
    masters: Seq<Seq<i32>>,
    r: Seq<Blend>,
) -> bool {
    if default.len() == 0 {
        r.len() == 0
    } else if some_list_empty(masters) {
        &&& r.len() == default.len()
        &&& forall|i: int|
            0 <= i < r.len() ==> (#[trigger] r[i]).default == Number::Int(default[i] as i64)
                && r[i].deltas@.len() == 0
    } else {
        &&& r.len() == shortest(masters)
        &&& forall|i: int|
            0 <= i < r.len() ==> {
                &&& (#[trigger] r[i]).default == Number::Int(masters[0][i] as i64)
                &&& row_deltas(f, places, masters, i, r[i].deltas@)
            }
    }
}

/// `deltas` are those of one row.
pub open spec fn row_deltas<F: Fn(&Vec<Location>, &Vec<Number>) -> Vec<Number>>(
    f: F,
    places: Seq<Map<Tag, Real>>,
    masters: Seq<Seq<i32>>,
    row: int,
    deltas: Seq<Number>,
) -> bool {
    if any_row_varies(masters) {
        exists|d: Seq<Number>| #[trigger]
            answers(f, places, relative_row(masters, row), d) && deltas == d.skip(1)
    } else {
        deltas.len() == 0
    }
}

proof fn lemma_shortest(masters: Seq<Seq<i32>>)
    requires
        masters.len() > 0,
    ensures
        forall|m: int| 0 <= m < masters.len() ==> shortest(masters) <= (#[trigger] masters[m]).len(),
    decreases masters.len(),
{
    if masters.len() > 1 {
        let rest = masters.drop_last();
        lemma_shortest(rest);
        assert forall|m: int| 0 <= m < masters.len() implies shortest(masters)
            <= (#[trigger] masters[m]).len() by {
            if m < rest.len() {
                assert(rest[m] == masters[m]);
            }
        }
    }
}

fn shortest_of(masters: &Vec<Vec<i32>>) -> (r: usize)
    requires
        masters@.len() > 0,
    ensures
        r == shortest(lists(masters@)),
{
    let ghost all = lists(masters@);
    let mut r: usize = masters[0].len();
    let mut m: usize = 1;
    proof {
        assert(all.take(1)[0] == masters@[0]@);
    }
    while m < masters.len()
        invariant
            1 <= m <= masters@.len(),
            all == lists(masters@),
            r == shortest(all.take(m as int)),
        decreases masters.len() - m,
    {
        proof {
            assert(all.take(m + 1).drop_last() =~= all.take(m as int));
            assert(all.take(m + 1).last() == masters@[m as int]@);
        }
        if masters[m].len() < r {
            r = masters[m].len();
        }
        m = m + 1;
    }
    assert(all.take(m as int) =~= all);
    r
}

fn has_empty_list(masters: &Vec<Vec<i32>>) -> (r: bool)
    ensures
        r == some_list_empty(lists(masters@)),
{
    let mut m: usize = 0;
    while m < masters.len()
        invariant
            m <= masters@.len(),
            forall|k: int| 0 <= k < m ==> (#[trigger] lists(masters@)[k]).len() > 0,
        decreases masters.len() - m,
    {
        if masters[m].len() == 0 {
            assert(lists(masters@)[m as int].len() == 0);
            return true;
        }
        m = m + 1;
    }
    false
}

fn relative_row_of(masters: &Vec<Vec<i32>>, row: usize) -> (r: Vec<Number>)
    requires
        forall|m: int| 0 <= m < masters@.len() ==> row < (#[trigger] masters@[m])@.len(),
    ensures
        r@ == relative_row(lists(masters@), row as int),
{
    let mut r: Vec<Number> = Vec::new();
    let mut m: usize = 0;
    while m < masters.len()
        invariant
            m <= masters@.len(),
            forall|m: int| 0 <= m < masters@.len() ==> row < (#[trigger] masters@[m])@.len(),
            r@.len() == m,
            forall|k: int|
                0 <= k < m ==> #[trigger] r@[k] == relative_row(lists(masters@), row as int)[k],
        decreases masters.len() - m,
    {
        let value: i64 = masters[m][row] as i64;
        let previous: i64 = if row > 0 {
            masters[m][row - 1] as i64
        } else {
            0
        };
        r.push(Number::Int(value - previous));
        m = m + 1;
    }
    assert(r@ =~= relative_row(lists(masters@), row as int));
    r
}

/// One blended entry per row of a list.
///
/// Rows are converted to values relative to the previous row before the deltas
/// are taken, but the stored default is the row's absolute value. If any row
/// varies, every row is emitted as a blend; if none does, none is.
pub fn blend_list<F: Fn(&Vec<Location>, &Vec<Number>) -> Vec<Number>>(
    default: &Vec<i32>,
    masters: &Vec<Vec<i32>>,
    places: &Vec<Location>,
    model: &F,
) -> (r: Vec<Blend>)
    requires
        masters@.len() > 0,
        is_model(*model),
    ensures
        list_blends_to(*model, coords::places(places@), default@, lists(masters@), r@),
{
    let mut r: Vec<Blend> = Vec::new();
    if default.len() == 0 {
        return r;
    }
    let ghost all = lists(masters@);
    if has_empty_list(masters) {
        let mut i: usize = 0;
        while i < default.len()
            invariant
                i <= default@.len(),
                r@.len() == i,
                forall|j: int|
                    0 <= j < i ==> (#[trigger] r@[j]).default == Number::Int(default@[j] as i64)
                        && r@[j].deltas@.len() == 0,
            decreases default.len() - i,
        {
            r.push(Blend::scalar(Number::Int(default[i] as i64)));
            i = i + 1;
        }
        return r;
    }
    let rows: usize = shortest_of(masters);
    proof {
        lemma_shortest(all);
        assert forall|m: int| 0 <= m < masters@.len() implies rows <= (#[trigger] masters@[m])@.len() by {
            assert(all[m] == masters@[m]@);
        }
    }
    let mut varies: bool = false;
    let mut k: usize = 0;
    while k < rows
        invariant
            k <= rows,
            all == lists(masters@),
            rows == shortest(all),
            forall|m: int| 0 <= m < masters@.len() ==> rows <= (#[trigger] masters@[m])@.len(),
            varies <==> exists|row: int|
                0 <= row < k && !same_throughout(#[trigger] relative_row(all, row)),
        decreases rows - k,
    {
        let relative: Vec<Number> = relative_row_of(masters, k);
        if !all_equal(&relative) {
            varies = true;
        }
        k = k + 1;
    }
    assert(varies == any_row_varies(all));
    let mut row: usize = 0;
    while row < rows
        invariant
            row <= rows,
            all == lists(masters@),
            rows == shortest(all),
            masters@.len() > 0,
            is_model(*model),
            varies == any_row_varies(all),
            forall|m: int| 0 <= m < masters@.len() ==> rows <= (#[trigger] masters@[m])@.len(),
            r@.len() == row,
            forall|i: int|
                0 <= i < row ==> {
                    &&& (#[trigger] r@[i]).default == Number::Int(all[0][i] as i64)
                    &&& row_deltas(*model, coords::places(places@), all, i, r@[i].deltas@)
                },
        decreases rows - row,
    {
        assert(masters@[0]@ == all[0]);
        let default: Number = Number::Int(masters[0][row] as i64);
        if varies {
            let relative: Vec<Number> = relative_row_of(masters, row);
            let deltas: Vec<Number> = model(places, &relative);
            assert(answers(*model, coords::places(places@), relative_row(all, row as int), deltas@));
            r.push(Blend::new(default, without_first(&deltas)));
        } else {
            r.push(Blend::scalar(default));
        }
        row = row + 1;
    }
    r
}

/// What an optional number that the masters state blends to: nothing if the
/// default master states none, and the default master's own if another master
/// states none.
pub open spec fn optional_blends_to<F: Fn(&Vec<Location>, &Vec<Number>) -> Vec<Number>>(
    f: F,
    places: Seq<Map<Tag, Real>>,
    values: Seq<Option<i32>>,
    r: Option<Blend>,
) -> bool {
    if values.len() == 0 || values[0] is None {
        r is None
    } else if exists|m: int| 0 <= m < values.len() && (#[trigger] values[m]) is None {
        r is Some && r->0.default == Number::Int(values[0]->0 as i64) && r->0.deltas@.len() == 0
    } else {
        r is Some && blends_to(f, places, values.map_values(|v: Option<i32>| Number::Int(v->0 as i64)), r->0)
    }
}

/// [`blend_scalar`] for numbers that can be missing from a master.
pub fn blend_optional_scalar<F: Fn(&Vec<Location>, &Vec<Number>) -> Vec<Number>>(
    values: &Vec<Option<i32>>,
    places: &Vec<Location>,
    model: &F,
) -> (r: Option<Blend>)
    requires
        is_model(*model),
    ensures
        optional_blends_to(*model, coords::places(places@), values@, r),
{
    if values.len() == 0 {
        return None;
    }
    let default: i32 = match values[0] {
        Some(v) => v,
        None => return None,
    };
    let mut numbers: Vec<Number> = Vec::new();
    let mut m: usize = 0;
    while m < values.len()
        invariant
            m <= values@.len(),
            values@.len() > 0,
            values@[0] == Some(default),
            numbers@.len() == m,
            forall|k: int|
                0 <= k < m ==> (#[trigger] values@[k]) is Some && numbers@[k] == Number::Int(
                    values@[k]->0 as i64,
                ),
        decreases values.len() - m,
    {
        match values[m] {
            Some(v) => {
                numbers.push(Number::Int(v as i64));
            },
            None => {
                return Some(Blend::scalar(Number::Int(default as i64)));
            },
        }
        m = m + 1;
    }
    assert(numbers@ =~= values@.map_values(|v: Option<i32>| Number::Int(v->0 as i64)));
    Some(blend_scalar(&numbers, places, model))
}

/// The rank of 0.039625, the `BlueScale` of a font that states none.
pub const DEFAULT_BLUE_SCALE: Real = 0x3FA449BA5E353F7D;

pub const DEFAULT_BLUE_SHIFT: i32 = 7;

pub const DEFAULT_BLUE_FUZZ: i32 = 1;

/// The entries of a blended Private DICT.
#[derive(Debug, PartialEq, Eq)]
pub struct Cff2PrivateDictValues {
    pub blue_values: Vec<Blend>,
    pub other_blues: Vec<Blend>,
    pub family_blues: Vec<Blend>,
    pub family_other_blues: Vec<Blend>,
    pub blue_scale: Option<Blend>,
    pub blue_shift: Option<Blend>,
    pub blue_fuzz: Option<Blend>,
    pub std_hw: Option<Blend>,
    pub std_vw: Option<Blend>,
    pub stem_snap_h: Vec<Blend>,
    pub stem_snap_v: Vec<Blend>,
}

/// A list of a Private DICT.
#[derive(Debug, Clone, Copy, PartialEq, Eq, Structural)]
pub enum ListKey {
    BlueValues,
    OtherBlues,
    FamilyBlues,
    FamilyOtherBlues,
    StemSnapH,
    StemSnapV,
}

pub open spec fn list_of(private: PrivateDictValues, key: ListKey) -> Seq<i32> {
    match key {
        ListKey::BlueValues => private.blue_values@,
        ListKey::OtherBlues => private.other_blues@,
        ListKey::FamilyBlues => private.family_blues@,
        ListKey::FamilyOtherBlues => private.family_other_blues@,
        ListKey::StemSnapH => private.stem_snap_h@,
        ListKey::StemSnapV => private.stem_snap_v@,
    }
}

/// The `BlueScale` of each master, the default master's as it reads back.
pub open spec fn blue_scales<C: Fn(Real) -> Number>(
    number: C,
    masters: Seq<PrivateDictValues>,
    read_back: Real,
) -> Seq<Number> {
    Seq::new(
        masters.len(),
        |m: int|
            numeric::image(
                number,
                if m == 0 {
                    read_back
                } else {
                    cff::or_else(masters[m].blue_scale, DEFAULT_BLUE_SCALE)
                },
            ),
    )
}

pub open spec fn blue_shifts(masters: Seq<PrivateDictValues>) -> Seq<Number> {
    Seq::new(
        masters.len(),
        |m: int| Number::Int(cff::or_else(masters[m].blue_shift, DEFAULT_BLUE_SHIFT) as i64),
    )
}

pub open spec fn blue_fuzzes(masters: Seq<PrivateDictValues>) -> Seq<Number> {
    Seq::new(
        masters.len(),
        |m: int| Number::Int(cff::or_else(masters[m].blue_fuzz, DEFAULT_BLUE_FUZZ) as i64),
    )
}

/// A scalar that blends only if the default master's is `written`.
pub open spec fn written_blends_to<F: Fn(&Vec<Location>, &Vec<Number>) -> Vec<Number>>(
    f: F,
    places: Seq<Map<Tag, Real>>,
    written: bool,
    values: Seq<Number>,
    r: Option<Blend>,
) -> bool {
    if written {
        r is Some && blends_to(f, places, values, r->0)
    } else {
        r is None
    }
}

/// The blended Private DICT of these masters, the default one first.
///
/// The scalars with a default of their own are blended only when the default
/// master states something else, the others whenever it states them at all.
pub open spec fn private_blends_to<F: Fn(&Vec<Location>, &Vec<Number>) -> Vec<Number>, C: Fn(Real) -> Number>(
    f: F,
    places: Seq<Map<Tag, Real>>,
    number: C,
    masters: Seq<PrivateDictValues>,
    read_back: Real,
    r: Cff2PrivateDictValues,
) -> bool {
    let default = masters[0];
    let list = |key: ListKey|
        masters.map_values(|m: PrivateDictValues| list_of(m, key));
    &&& list_blends_to(f, places, default.blue_values@, list(ListKey::BlueValues), r.blue_values@)
    &&& list_blends_to(f, places, default.other_blues@, list(ListKey::OtherBlues), r.other_blues@)
    &&& list_blends_to(f, places, default.family_blues@, list(ListKey::FamilyBlues), r.family_blues@)
    &&& list_blends_to(
        f,
        places,
        default.family_other_blues@,
        list(ListKey::FamilyOtherBlues),
        r.family_other_blues@,
    )
    &&& list_blends_to(f, places, default.stem_snap_h@, list(ListKey::StemSnapH), r.stem_snap_h@)
    &&& list_blends_to(f, places, default.stem_snap_v@, list(ListKey::StemSnapV), r.stem_snap_v@)
    &&& written_blends_to(
        f,
        places,
        default.blue_scale is Some && read_back != DEFAULT_BLUE_SCALE,
        blue_scales(number, masters, read_back),
        r.blue_scale,
    )
    &&& written_blends_to(
        f,
        places,
        default.blue_shift is Some && default.blue_shift->0 != DEFAULT_BLUE_SHIFT,
        blue_shifts(masters),
        r.blue_shift,
    )
    &&& written_blends_to(
        f,
        places,
        default.blue_fuzz is Some && default.blue_fuzz->0 != DEFAULT_BLUE_FUZZ,
        blue_fuzzes(masters),
        r.blue_fuzz,
    )
    &&& optional_blends_to(f, places, masters.map_values(|m: PrivateDictValues| m.std_hw), r.std_hw)
    &&& optional_blends_to(f, places, masters.map_values(|m: PrivateDictValues| m.std_vw), r.std_vw)
}

/// One list of every master.
fn lists_of(masters: &Vec<PrivateDictValues>, key: ListKey) -> (r: Vec<Vec<i32>>)
    ensures
        r@.len() == masters@.len(),
        lists(r@) == masters@.map_values(|m: PrivateDictValues| list_of(m, key)),
{
    let mut r: Vec<Vec<i32>> = Vec::new();
    let mut m: usize = 0;
    while m < masters.len()
        invariant
            m <= masters@.len(),
            r@.len() == m,
            forall|k: int| 0 <= k < m ==> (#[trigger] r@[k])@ == list_of(masters@[k], key),
        decreases masters.len() - m,
    {
        let list: &Vec<i32> = match key {
            ListKey::BlueValues => &masters[m].blue_values,
            ListKey::OtherBlues => &masters[m].other_blues,
            ListKey::FamilyBlues => &masters[m].family_blues,
            ListKey::FamilyOtherBlues => &masters[m].family_other_blues,
            ListKey::StemSnapH => &masters[m].stem_snap_h,
            ListKey::StemSnapV => &masters[m].stem_snap_v,
        };
        r.push(cff::copy_ints(list));
        m = m + 1;
    }
    assert(lists(r@) =~= masters@.map_values(|m: PrivateDictValues| list_of(m, key)));
    r
}

/// The blended Private DICT of these masters, the default one first, which are
/// at `places`.
///
/// `read_back` is the default master's `BlueScale` as it reads back from the
/// CFF encoding, which keeps fewer digits than the other masters' have.
/// `number` writes a real number in a DICT, as a whole one if it is one.
pub fn blend_private<F: Fn(&Vec<Location>, &Vec<Number>) -> Vec<Number>, C: Fn(Real) -> Number>(
    masters: &Vec<PrivateDictValues>,
    read_back: Real,
    number: &C,
    places: &Vec<Location>,
    model: &F,
) -> (r: Cff2PrivateDictValues)
    requires
        masters@.len() > 0,
        numeric::is_map(*number),
        is_model(*model),
    ensures
        private_blends_to(*model, coords::places(places@), *number, masters@, read_back, r),
{
    let default: &PrivateDictValues = &masters[0];
    let mut scales: Vec<Number> = Vec::new();
    let mut shifts: Vec<Number> = Vec::new();
    let mut fuzzes: Vec<Number> = Vec::new();
    let mut hws: Vec<Option<i32>> = Vec::new();
    let mut vws: Vec<Option<i32>> = Vec::new();
    let mut m: usize = 0;
    while m < masters.len()
        invariant
            m <= masters@.len(),
            numeric::is_map(*number),
            scales@ =~= blue_scales(*number, masters@, read_back).take(m as int),
            shifts@ =~= blue_shifts(masters@).take(m as int),
            fuzzes@ =~= blue_fuzzes(masters@).take(m as int),
            hws@ =~= masters@.map_values(|m: PrivateDictValues| m.std_hw).take(m as int),
            vws@ =~= masters@.map_values(|m: PrivateDictValues| m.std_vw).take(m as int),
        decreases masters.len() - m,
    {
        let scale: Real = if m == 0 {
            read_back
        } else {
            masters[m].blue_scale.unwrap_or(DEFAULT_BLUE_SCALE)
        };
        scales.push(numeric::apply(number, scale));
        shifts.push(Number::Int(masters[m].blue_shift.unwrap_or(DEFAULT_BLUE_SHIFT) as i64));
        fuzzes.push(Number::Int(masters[m].blue_fuzz.unwrap_or(DEFAULT_BLUE_FUZZ) as i64));
        hws.push(masters[m].std_hw);
        vws.push(masters[m].std_vw);
        m = m + 1;
    }
    assert(scales@ =~= blue_scales(*number, masters@, read_back));
    assert(shifts@ =~= blue_shifts(masters@));
    assert(fuzzes@ =~= blue_fuzzes(masters@));
    assert(hws@ =~= masters@.map_values(|m: PrivateDictValues| m.std_hw));
    assert(vws@ =~= masters@.map_values(|m: PrivateDictValues| m.std_vw));
    let blue_scale: Option<Blend> = if default.blue_scale.is_some() && read_back
        != DEFAULT_BLUE_SCALE {
        Some(blend_scalar(&scales, places, model))
    } else {
        None
    };
    let shift_written: bool = match default.blue_shift {
        Some(v) => v != DEFAULT_BLUE_SHIFT,
        None => false,
    };
    let blue_shift: Option<Blend> = if shift_written {
        Some(blend_scalar(&shifts, places, model))
    } else {
        None
    };
    let fuzz_written: bool = match default.blue_fuzz {
        Some(v) => v != DEFAULT_BLUE_FUZZ,
        None => false,
    };
    let blue_fuzz: Option<Blend> = if fuzz_written {
        Some(blend_scalar(&fuzzes, places, model))
    } else {
        None
    };
    Cff2PrivateDictValues {
        blue_values: blend_list(
            &default.blue_values,
            &lists_of(masters, ListKey::BlueValues),
            places,
            model,
        ),
        other_blues: blend_list(
            &default.other_blues,
            &lists_of(masters, ListKey::OtherBlues),
            places,
            model,
        ),
        family_blues: blend_list(
            &default.family_blues,
            &lists_of(masters, ListKey::FamilyBlues),
            places,
            model,
        ),
        family_other_blues: blend_list(
            &default.family_other_blues,
            &lists_of(masters, ListKey::FamilyOtherBlues),
            places,
            model,
        ),
        blue_scale,
        blue_shift,
        blue_fuzz,
        std_hw: blend_optional_scalar(&hws, places, model),
        std_vw: blend_optional_scalar(&vws, places, model),
        stem_snap_h: blend_list(
            &default.stem_snap_h,
            &lists_of(masters, ListKey::StemSnapH),
            places,
            model,
        ),
        stem_snap_v: blend_list(
            &default.stem_snap_v,
            &lists_of(masters, ListKey::StemSnapV),
            places,
            model,
        ),
    }
}

/// The last entry of `list` that is at `at` once it is restricted to `axes`.
pub open spec fn last_fitted<V>(
    list: Seq<(Location, V)>,
    axes: Seq<Tag>,
    at: Map<Tag, Real>,
) -> Option<int>
    decreases list.len(),
{
    if list.len() == 0 {
        None
    } else if coords::fitted(list.last().0@, axes) == at {
        Some(list.len() - 1)
    } else {
        last_fitted(list.drop_last(), axes, at)
    }
}

/// The last entry of `list` that is at `at` once it is restricted to `axes`.
pub fn find_last_fitted<V>(list: &Vec<(Location, V)>, axes: &Vec<Tag>, at: &Location) -> (r: Option<
    usize,
>)
    ensures
        last_fitted(list@, axes@, at@) == (match r {
            Some(i) => Some(i as int),
            None => None,
        }),
        r is Some ==> r->0 < list@.len(),
{
    let mut n: usize = list.len();
    assert(list@.take(n as int) =~= list@);
    while n > 0
        invariant
            n <= list@.len(),
            last_fitted(list@, axes@, at@) == last_fitted(list@.take(n as int), axes@, at@),
        decreases n,
    {
        assert(list@.take(n as int).drop_last() =~= list@.take(n - 1));
        assert(list@.take(n as int).last() == list@[n - 1]);
        let there: Location = list[n - 1].0.fit_to_axes(axes);
        if there.same(at) {
            return Some(n - 1);
        }
        n = n - 1;
    }
    None
}

/// The PostScript settings that a master at `at` blends with: its own, or the
/// default master's if it has none.
pub open spec fn settings_at(
    static_metadata: StaticMetadata,
    at: Map<Tag, Real>,
    r: PostscriptSettings,
) -> bool {
    match last_fitted(static_metadata.postscript@, coords::tags_of(static_metadata.axes@), at) {
        Some(i) => r.same_as(&static_metadata.postscript@[i].1),
        None => match coords::placed(static_metadata.postscript@, static_metadata.home()) {
            Some(i) => r.same_as(&static_metadata.postscript@[i].1),
            None => r.says_nothing(),
        },
    }
}

/// The PostScript settings of the masters that the Private DICT blends.
///
/// A master without any of its own, such as a layer of another, gets those of
/// the default master.
pub fn blending_settings(static_metadata: &StaticMetadata, blending_masters: &Vec<Location>) -> (r:
    Vec<PostscriptSettings>)
    ensures
        r@.len() == blending_masters@.len(),
        forall|i: int|
            0 <= i < r@.len() ==> settings_at(
                *static_metadata,
                blending_masters@[i]@,
                #[trigger] r@[i],
            ),
{
    let axes: Vec<Tag> = coords::axis_order(&static_metadata.axes);
    let mut r: Vec<PostscriptSettings> = Vec::new();
    let mut i: usize = 0;
    while i < blending_masters.len()
        invariant
            i <= blending_masters@.len(),
            axes@ == coords::tags_of(static_metadata.axes@),
            r@.len() == i,
            forall|k: int|
                0 <= k < i ==> settings_at(
                    *static_metadata,
                    blending_masters@[k]@,
                    #[trigger] r@[k],
                ),
        decreases blending_masters.len() - i,
    {
        let settings: PostscriptSettings = match find_last_fitted(
            &static_metadata.postscript,
            &axes,
            &blending_masters[i],
        ) {
            Some(k) => static_metadata.postscript[k].1.clone(),
            None => static_metadata.postscript_default(),
        };
        r.push(settings);
        i = i + 1;
    }
    r
}

/// Locations restricted to some axes.
pub open spec fn fitted_places(list: Seq<Location>, axes: Seq<Tag>) -> Seq<Map<Tag, Real>> {
    list.map_values(|l: Location| coords::fitted(l@, axes))
}

/// The locations of every source of every glyph, one glyph after the other.
pub open spec fn glyph_places(sources: Seq<Vec<Location>>, axes: Seq<Tag>) -> Seq<Map<Tag, Real>>
    decreases sources.len(),
{
    if sources.len() == 0 {
        seq![]
    } else {
        glyph_places(sources.drop_last(), axes) + fitted_places(sources.last()@, axes)
    }
}

fn push_place(list: &mut Vec<Location>, at: Location)
    ensures
        coords::places(final(list)@) == (if coords::places(old(list)@).contains(at@) {
            coords::places(old(list)@)
        } else {
            coords::places(old(list)@).push(at@)
        }),
{
    match coords::find_place(list, &at) {
        Some(i) => {
            assert(coords::places(list@)[i as int] == at@);
        },
        None => {
            let ghost before = list@;
            assert(!coords::places(before).contains(at@));
            list.push(at);
            assert(coords::places(list@) =~= coords::places(before).push(at@));
        },
    }
}

/// Where the masters of a font are: the locations of its global model, and
/// every further one that some glyph is drawn at, each once.
pub fn master_locations(
    global: &Vec<Location>,
    sources: &Vec<Vec<Location>>,
    axes: &Vec<Tag>,
) -> (r: Vec<Location>)
    ensures
        coords::places(r@) == lookup::first_seen(
            coords::places(global@) + glyph_places(sources@, axes@),
        ),
{
    let mut r: Vec<Location> = Vec::new();
    let ghost first = coords::places(global@);
    let mut i: usize = 0;
    assert(coords::places(r@) =~= lookup::first_seen(first.take(0)));
    while i < global.len()
        invariant
            i <= global@.len(),
            first == coords::places(global@),
            coords::places(r@) == lookup::first_seen(first.take(i as int)),
        decreases global.len() - i,
    {
        assert(first.take(i + 1).drop_last() =~= first.take(i as int));
        assert(first.take(i + 1).last() == global@[i as int]@);
        push_place(&mut r, global[i].clone());
        i = i + 1;
    }
    let mut g: usize = 0;
    assert(first.take(i as int) =~= first);
    assert(first + glyph_places(sources@.take(0), axes@) =~= first);
    while g < sources.len()
        invariant
            g <= sources@.len(),
            first == coords::places(global@),
            coords::places(r@) == lookup::first_seen(
                first + glyph_places(sources@.take(g as int), axes@),
            ),
        decreases sources.len() - g,
    {
        let ghost before = first + glyph_places(sources@.take(g as int), axes@);
        let ghost these = fitted_places(sources@[g as int]@, axes@);
        let mut k: usize = 0;
        assert(before + these.take(0) =~= before);
        while k < sources[g].len()
            invariant
                g < sources@.len(),
                k <= sources@[g as int]@.len(),
                these == fitted_places(sources@[g as int]@, axes@),
                coords::places(r@) == lookup::first_seen(before + these.take(k as int)),
            decreases sources@[g as int]@.len() - k,
        {
            proof {
                let all = before + these.take(k + 1);
                assert(all.drop_last() =~= before + these.take(k as int));
                assert(all.last() == these[k as int]);
            }
            push_place(&mut r, sources[g][k].fit_to_axes(axes));
            k = k + 1;
        }
        proof {
            let upto = sources@.take(g + 1);
            assert(upto.drop_last() =~= sources@.take(g as int));
            assert(upto.last() == sources@[g as int]);
            assert(these.take(k as int) =~= these);
            assert(before + these =~= first + glyph_places(upto, axes@));
        }
        g = g + 1;
    }
    assert(sources@.take(g as int) =~= sources@);
    r
}

/// Outlines by location. Of two at one location, the later counts.
pub open spec fn outline_map(outlines: Seq<(Location, Vec<PathEl>)>) -> Map<
    Map<Tag, Real>,
    Seq<PathEl>,
>
    decreases outlines.len(),
{
    if outlines.len() == 0 {
        Map::empty()
    } else {
        outline_map(outlines.drop_last()).insert(outlines.last().0@, outlines.last().1@)
    }
}

/// Outlines by location, restricted to some axes.
pub open spec fn fitted_outlines(
    outlines: Seq<(Location, Vec<PathEl>)>,
    axes: Seq<Tag>,
) -> Map<Map<Tag, Real>, Seq<PathEl>>
    decreases outlines.len(),
{
    if outlines.len() == 0 {
        Map::empty()
    } else {
        fitted_outlines(outlines.drop_last(), axes).insert(
            coords::fitted(outlines.last().0@, axes),
            outlines.last().1@,
        )
    }
}

/// Outlines with `outline` wherever a master has none.
pub open spec fn filled(
    outlines: Map<Map<Tag, Real>, Seq<PathEl>>,
    masters: Seq<Location>,
    outline: Seq<PathEl>,
) -> Map<Map<Tag, Real>, Seq<PathEl>>
    decreases masters.len(),
{
    if masters.len() == 0 {
        outlines
    } else {
        let rest = filled(outlines, masters.drop_last(), outline);
        if rest.contains_key(masters.last()@) {
            rest
        } else {
            rest.insert(masters.last()@, outline)
        }
    }
}

/// Which masters a glyph varies across: the default one, blank or not, and
/// every other in which it draws something.
pub open spec fn participation(
    masters: Seq<Location>,
    default_index: int,
    outlines: Map<Map<Tag, Real>, Seq<PathEl>>,
) -> Seq<bool> {
    Seq::new(
        masters.len(),
        |i: int|
            i == default_index || (outlines.contains_key(masters[i]@) && outlines[masters[i]@].len()
                > 0),
    )
}

/// How many of a list are true.
pub open spec fn count(mask: Seq<bool>) -> nat
    decreases mask.len(),
{
    if mask.len() == 0 {
        0
    } else {
        count(mask.drop_last()) + if mask.last() {
            1nat
        } else {
            0nat
        }
    }
}

/// The masters that a mask picks, in order.
pub open spec fn picked(masters: Seq<Location>, mask: Seq<bool>) -> Seq<Map<Tag, Real>>
    decreases masters.len(),
{
    if masters.len() == 0 {
        seq![]
    } else {
        let rest = picked(masters.drop_last(), mask);
        if mask[masters.len() - 1] {
            rest.push(masters.last()@)
        } else {
            rest
        }
    }
}

/// Where the masters that a mask picks are: what a model over just those
/// masters is made of.
pub fn sub_model_locations(masters: &Vec<Location>, mask: &Vec<bool>) -> (r: Vec<Location>)
    requires
        mask@.len() == masters@.len(),
    ensures
        coords::places(r@) == picked(masters@, mask@),
{
    let mut r: Vec<Location> = Vec::new();
    let mut i: usize = 0;
    while i < masters.len()
        invariant
            i <= masters@.len(),
            mask@.len() == masters@.len(),
            coords::places(r@) =~= picked(masters@.take(i as int), mask@),
        decreases masters.len() - i,
    {
        assert(masters@.take(i + 1).drop_last() =~= masters@.take(i as int));
        if mask[i] {
            let ghost before = r@;
            r.push(masters[i].clone());
            assert(coords::places(r@) =~= coords::places(before).push(masters@[i as int]@));
        }
        i = i + 1;
    }
    assert(masters@.take(i as int) =~= masters@);
    r
}

pub(crate) fn copy_path(path: &Vec<PathEl>) -> (r: Vec<PathEl>)
    ensures
        r@ == path@,
{
    let mut r: Vec<PathEl> = Vec::new();
    let mut i: usize = 0;
    while i < path.len()
        invariant
            i <= path@.len(),
            r@ =~= path@.take(i as int),
        decreases path.len() - i,
    {
        r.push(path[i]);
        i = i + 1;
    }
    assert(r@ =~= path@);
    r
}

/// The index of the outline at a location.
pub(crate) fn find_outline(outlines: &Vec<(Location, Vec<PathEl>)>, at: &Location) -> (r: Option<usize>)
    ensures
        match r {
            Some(i) => i < outlines@.len() && outline_map(outlines@).contains_key(at@)
                && outline_map(outlines@)[at@] == outlines@[i as int].1@,
            None => !outline_map(outlines@).contains_key(at@),
        },
{
    let mut n: usize = outlines.len();
    assert(outlines@.take(n as int) =~= outlines@);
    while n > 0
        invariant
            n <= outlines@.len(),
            outline_map(outlines@).contains_key(at@) == outline_map(
                outlines@.take(n as int),
            ).contains_key(at@),
            outline_map(outlines@).contains_key(at@) ==> outline_map(outlines@)[at@]
                == outline_map(outlines@.take(n as int))[at@],
        decreases n,
    {
        assert(outlines@.take(n as int).drop_last() =~= outlines@.take(n - 1));
        assert(outlines@.take(n as int).last() == outlines@[n - 1]);
        if outlines[n - 1].0.same(at) {
            return Some(n - 1);
        }
        n = n - 1;
    }
    None
}

/// The state of building a `CFF2` table, between one glyph and the next.
#[derive(Debug)]
pub struct Cff2Build {
    /// Where the masters are, in the order of the global model.
    pub masters: Vec<Location>,
    /// Which of them is the default.
    pub default_index: usize,
    pub axis_order: Vec<Tag>,
    /// The source has no `.notdef`, so one was made up.
    pub synthesized_notdef: bool,
    pub plan: VarStorePlan,
    /// The rounded bounds of each glyph so far.
    pub glyph_bounds: Vec<Option<[i32; 4]>>,
    /// The bounds of each glyph so far, grown to whole units.
    pub glyph_outer_bounds: Vec<Option<[i32; 4]>>,
}

/// What is to be drawn of a glyph.
#[derive(Debug)]
pub struct GlyphJob {
    /// Outlines by location; of two at one location, the later counts.
    pub outlines: Vec<(Location, Vec<PathEl>)>,
    /// Which masters the glyph varies across.
    pub mask: Vec<bool>,
    /// How many those are.
    pub participants: usize,
}

impl Cff2Build {
    pub open spec fn wf(&self) -> bool {
        &&& self.default_index < self.masters@.len()
        &&& self.plan@.wf()
    }

    /// Whether a glyph is the `.notdef` that was made up.
    pub open spec fn made_up(&self, glyph_name: Seq<char>) -> bool {
        self.synthesized_notdef && glyph_name == ".notdef"@
    }

    /// What a glyph with these outlines is drawn from: its outlines by master,
    /// and for a made-up `.notdef` the default one in every further master.
    pub open spec fn drawn_from(
        &self,
        glyph_name: Seq<char>,
        outlines: Seq<(Location, Vec<PathEl>)>,
    ) -> Map<Map<Tag, Real>, Seq<PathEl>> {
        let own = fitted_outlines(outlines, self.axis_order@);
        if self.made_up(glyph_name) {
            filled(own, self.masters@, own[self.masters@[self.default_index as int]@])
        } else {
            own
        }
    }

    /// `job` is what is to be drawn of a glyph with these outlines.
    pub open spec fn is_job_for(
        &self,
        glyph_name: Seq<char>,
        outlines: Seq<(Location, Vec<PathEl>)>,
        job: GlyphJob,
    ) -> bool {
        let drawn = self.drawn_from(glyph_name, outlines);
        &&& outline_map(job.outlines@) == drawn
        &&& job.mask@ == participation(self.masters@, self.default_index as int, drawn)
        &&& job.participants == count(job.mask@)
    }

    /// Begin with the masters of the global model, one of which must be at
    /// `default`. `source_has_notdef` says whether the source has a `.notdef`.
    pub fn new(
        masters: Vec<Location>,
        default: &Location,
        axis_order: Vec<Tag>,
        source_has_notdef: bool,
    ) -> (r: Result<Cff2Build, Error>)
        ensures
            r is Ok <==> coords::places(masters@).contains(default@),
            match r {
                Ok(b) => {
                    &&& b.wf()
                    &&& b.masters == masters
                    &&& masters@[b.default_index as int]@ == default@
                    &&& forall|j: int| 0 <= j < b.default_index ==> masters@[j]@ != default@
                    &&& b.axis_order == axis_order
                    &&& b.synthesized_notdef == !source_has_notdef
                    &&& b.plan@ == (PlanState { regions: seq![], subtables: seq![], masks: seq![] })
                    &&& b.glyph_bounds@.len() == 0
                    &&& b.glyph_outer_bounds@.len() == 0
                },
                Err(e) => e matches Error::NoVariationModel(at) && at@ == default@,
            },
    {
        match coords::find_place(&masters, default) {
            Some(default_index) => {
                assert(coords::places(masters@)[default_index as int] == default@);
                Ok(
                    Cff2Build {
                        masters,
                        default_index,
                        axis_order,
                        synthesized_notdef: !source_has_notdef,
                        plan: VarStorePlan::new(),
                        glyph_bounds: Vec::new(),
                        glyph_outer_bounds: Vec::new(),
                    },
                )
            },
            None => {
                Err(Error::NoVariationModel(default.clone()))
            },
        }
    }

    /// Decide what a glyph is drawn from and across which masters it varies.
    pub fn prepare_glyph(&self, glyph_name: &String, outlines: &Vec<(Location, Vec<PathEl>)>) -> (r:
        Result<GlyphJob, Error>)
        requires
            self.wf(),
        ensures
            r is Ok <==> fitted_outlines(outlines@, self.axis_order@).contains_key(
                self.masters@[self.default_index as int]@,
            ),
            match r {
                Ok(job) => self.is_job_for(glyph_name@, outlines@, job),
                Err(e) => e == Error::GlyphError(*glyph_name, GlyphProblem::MissingDefault),
            },
    {
        let mut own: Vec<(Location, Vec<PathEl>)> = Vec::new();
        let mut i: usize = 0;
        while i < outlines.len()
            invariant
                i <= outlines@.len(),
                outline_map(own@) == fitted_outlines(outlines@.take(i as int), self.axis_order@),
            decreases outlines.len() - i,
        {
            let ghost before = own@;
            own.push((outlines[i].0.fit_to_axes(&self.axis_order), copy_path(&outlines[i].1)));
            assert(own@.drop_last() =~= before);
            assert(outlines@.take(i + 1).drop_last() =~= outlines@.take(i as int));
            i = i + 1;
        }
        assert(outlines@.take(i as int) =~= outlines@);
        let default_outline: Vec<PathEl> = match find_outline(
            &own,
            &self.masters[self.default_index],
        ) {
            Some(k) => copy_path(&own[k].1),
            None => {
                return Err(
                    Error::GlyphError(glyph_name.clone(), GlyphProblem::MissingDefault),
                );
            },
        };
        if self.synthesized_notdef && text::same(glyph_name.as_str(), ".notdef") {
            let ghost start = outline_map(own@);
            let mut m: usize = 0;
            while m < self.masters.len()
                invariant
                    m <= self.masters@.len(),
                    outline_map(own@) == filled(
                        start,
                        self.masters@.take(m as int),
                        default_outline@,
                    ),
                decreases self.masters.len() - m,
            {
                assert(self.masters@.take(m + 1).drop_last() =~= self.masters@.take(m as int));
                if find_outline(&own, &self.masters[m]).is_none() {
                    let ghost before = own@;
                    own.push((self.masters[m].clone(), copy_path(&default_outline)));
                    assert(own@.drop_last() =~= before);
                }
                m = m + 1;
            }
            assert(self.masters@.take(m as int) =~= self.masters@);
        }
        let ghost drawn = outline_map(own@);
        let ghost wanted = participation(self.masters@, self.default_index as int, drawn);
        let mut mask: Vec<bool> = Vec::new();
        let mut participants: usize = 0;
        let mut m: usize = 0;
        while m < self.masters.len()
            invariant
                m <= self.masters@.len(),
                drawn == outline_map(own@),
                wanted == participation(self.masters@, self.default_index as int, drawn),
                mask@ =~= wanted.take(m as int),
                participants == count(mask@) <= m,
            decreases self.masters.len() - m,
        {
            let takes_part: bool = m == self.default_index || (match find_outline(
                &own,
                &self.masters[m],
            ) {
                Some(k) => own[k].1.len() > 0,
                None => false,
            });
            let ghost before = mask@;
            mask.push(takes_part);
            assert(mask@.drop_last() =~= before);
            if takes_part {
                participants = participants + 1;
            }
            m = m + 1;
        }
        assert(mask@ =~= wanted);
        Ok(GlyphJob { outlines: own, mask, participants })
    }

    /// Take note of a glyph that has been drawn, and give it the variation
    /// store index it blends against.
    ///
    /// A glyph that only one master draws, that blends nothing or that draws
    /// nothing claims no index. `model_regions` are those of the model over the
    /// masters it varies across.
    pub fn record_glyph(
        &mut self,
        job: &GlyphJob,
        blends: bool,
        marking: bool,
        model_regions: &Vec<VariationRegion>,
        rounded_bounds: Option<[i32; 4]>,
        outer_bounds: Option<[i32; 4]>,
    ) -> (r: Option<u16>)
        requires
            old(self).wf(),
        ensures
            final(self).wf(),
            final(self).masters == old(self).masters,
            final(self).default_index == old(self).default_index,
            final(self).axis_order == old(self).axis_order,
            final(self).synthesized_notdef == old(self).synthesized_notdef,
            final(self).glyph_bounds@ == old(self).glyph_bounds@.push(
                cff::recorded(rounded_bounds),
            ),
            final(self).glyph_outer_bounds@ == old(self).glyph_outer_bounds@.push(outer_bounds),
            if job.participants > 1 && blends && marking {
                let claimed = claim(old(self).plan@, job.mask@, tents_of(model_regions@));
                final(self).plan@ == claimed.0 && r == Some(claimed.1)
            } else {
                final(self).plan@ == old(self).plan@ && r is None
            },
    {
        self.glyph_bounds.push(cff::recorded_bounds(rounded_bounds));
        self.glyph_outer_bounds.push(outer_bounds);
        if job.participants > 1 && blends && marking {
            Some(self.plan.vsindex_for(&job.mask, model_regions))
        } else {
            None
        }
    }

    /// See to it that there is an index to blend the Private DICT against, and
    /// say which masters index zero stands for.
    ///
    /// `model_regions` are those of the model over every master.
    pub fn finish(&mut self, model_regions: &Vec<VariationRegion>) -> (r: Vec<bool>)
        requires
            old(self).wf(),
        ensures
            final(self).wf(),
            final(self).masters == old(self).masters,
            final(self).default_index == old(self).default_index,
            final(self).axis_order == old(self).axis_order,
            final(self).synthesized_notdef == old(self).synthesized_notdef,
            final(self).glyph_bounds == old(self).glyph_bounds,
            final(self).glyph_outer_bounds == old(self).glyph_outer_bounds,
            final(self).plan@ == (if old(self).plan@.subtables.len() == 0 {
                claim(
                    old(self).plan@,
                    Seq::new(old(self).masters@.len(), |i: int| true),
                    tents_of(model_regions@),
                ).0
            } else {
                old(self).plan@
            }),
            final(self).plan@.masks.len() > 0,
            r@ == final(self).plan@.masks[0],
    {
        if self.plan.subtables.len() == 0 {
            let mut mask: Vec<bool> = Vec::new();
            let mut i: usize = 0;
            while i < self.masters.len()
                invariant
                    i <= self.masters@.len(),
                    *self == *old(self),
                    mask@ =~= Seq::new(i as nat, |i: int| true),
                decreases self.masters.len() - i,
            {
                mask.push(true);
                i = i + 1;
            }
            assert(self.plan@.subtables.len() == self.plan.subtables@.len());
            self.plan.vsindex_for(&mask, model_regions);
        }
        assert(self.plan@.masks.len() == self.plan.masks@.len());
        copy_mask(&self.plan.masks[0])
    }
}

/// What masters that agree blend to is what they agree on, and nothing varies.
/// Where any two differ, the model decides, with the values in the order of
/// the masters.
pub proof fn law_only_differences_vary<F: Fn(&Vec<Location>, &Vec<Number>) -> Vec<Number>>(
    f: F,
    places: Seq<Map<Tag, Real>>,
    values: Seq<Number>,
    r: Blend,
)
    requires
        values.len() > 0,
        blends_to(f, places, values, r),
    ensures
        (forall|m: int| 0 <= m < values.len() ==> #[trigger] values[m] == values[0]) ==> r.default
            == values[0] && r.deltas@.len() == 0,
        (exists|m: int| 0 <= m < values.len() && #[trigger] values[m] != values[0]) ==> exists|
            d: Seq<Number>,
        | #[trigger]
            answers(f, places, values, d) && r.default == d[0] && r.deltas@ == d.skip(1),
{
    if forall|m: int| 0 <= m < values.len() ==> #[trigger] values[m] == values[0] {
        assert forall|i: int, j: int|
            0 <= i < values.len() && 0 <= j < values.len() implies values[i] == values[j] by {
            assert(values[i] == values[0] && values[j] == values[0]);
        }
    }
}

/// The values of a row that a model is asked about: the steps from the row
/// before, master by master, and the values themselves in the first row.
pub proof fn law_rows_are_steps_from_the_row_before(masters: Seq<Seq<i32>>, row: int, m: int)
    requires
        0 <= m < masters.len(),
        0 <= row < masters[m].len(),
    ensures
        relative_row(masters, row).len() == masters.len(),
        row == 0 ==> relative_row(masters, row)[m] == Number::Int(masters[m][0] as i64),
        row > 0 ==> relative_row(masters, row)[m] == Number::Int(
            (masters[m][row] - masters[m][row - 1]) as i64,
        ),
{
}

/// `deltas` are what a model may answer for these values, without the answer
/// for the default master.
pub open spec fn are_deltas_of<F: Fn(&Vec<Location>, &Vec<Number>) -> Vec<Number>>(
    f: F,
    places: Seq<Map<Tag, Real>>,
    values: Seq<Number>,
    deltas: Seq<Number>,
) -> bool {
    exists|d: Seq<Number>| #[trigger] answers(f, places, values, d) && deltas == d.skip(1)
}

/// A blended list has a row for each that every master has, with the value of
/// the default master, the first. Nothing varies if the masters agree on all
/// of those rows; if they do not, every row has the deltas of its steps.
pub proof fn law_lists_blend_row_by_row<F: Fn(&Vec<Location>, &Vec<Number>) -> Vec<Number>>(
    f: F,
    places: Seq<Map<Tag, Real>>,
    masters: Seq<Seq<i32>>,
    r: Seq<Blend>,
)
    requires
        masters.len() > 0,
        list_blends_to(f, places, masters[0], masters, r),
    ensures
        forall|i: int|
            0 <= i < r.len() ==> i < masters[0].len() && (#[trigger] r[i]).default == Number::Int(
                masters[0][i] as i64,
            ),
        (exists|m: int| 0 <= m < masters.len() && (#[trigger] masters[m]).len() == 0) ==> r.len()
            == masters[0].len() && forall|i: int|
            0 <= i < r.len() ==> (#[trigger] r[i]).deltas@.len() == 0,
        (forall|m: int| 0 <= m < masters.len() ==> (#[trigger] masters[m]).len() > 0) ==> (forall|m: int|
            0 <= m < masters.len() ==> r.len() <= (#[trigger] masters[m]).len()) && exists|m: int|
            0 <= m < masters.len() && r.len() == (#[trigger] masters[m]).len(),
        (forall|m: int| 0 <= m < masters.len() ==> (#[trigger] masters[m]).len() > 0) && (forall|m: int, i: int|
            0 <= m < masters.len() && 0 <= i < r.len() ==> #[trigger] masters[m][i]
                == masters[0][i]) ==> forall|i: int|
            0 <= i < r.len() ==> (#[trigger] r[i]).deltas@.len() == 0,
        (forall|m: int| 0 <= m < masters.len() ==> (#[trigger] masters[m]).len() > 0) && (exists|m: int, i: int|
            0 <= m < masters.len() && 0 <= i < r.len() && #[trigger] masters[m][i]
                != masters[0][i]) ==> forall|i: int|
            0 <= i < r.len() ==> are_deltas_of(
                f,
                places,
                relative_row(masters, i),
                (#[trigger] r[i]).deltas@,
            ),
{
    lemma_shortest_is_the_least(masters);
    if forall|m: int| 0 <= m < masters.len() ==> (#[trigger] masters[m]).len() > 0 {
        assert(!some_list_empty(masters));
        assert(masters[0].len() > 0);
        if forall|m: int, i: int|
            0 <= m < masters.len() && 0 <= i < r.len() ==> #[trigger] masters[m][i]
                == masters[0][i] {
            assert forall|row: int| 0 <= row < shortest(masters) implies same_throughout(
                #[trigger] relative_row(masters, row),
            ) by {
                let values = relative_row(masters, row);
                assert forall|i: int, j: int|
                    0 <= i < values.len() && 0 <= j < values.len() implies values[i] == values[j] by {
                    assert(masters[i][row] == masters[0][row]);
                    assert(masters[j][row] == masters[0][row]);
                    if row > 0 {
                        assert(masters[i][row - 1] == masters[0][row - 1]);
                        assert(masters[j][row - 1] == masters[0][row - 1]);
                    }
                }
            }
        }
        if exists|m: int, i: int|
            0 <= m < masters.len() && 0 <= i < r.len() && #[trigger] masters[m][i]
                != masters[0][i] {
            let (m, i) = choose|m: int, i: int|
                0 <= m < masters.len() && 0 <= i < r.len() && #[trigger] masters[m][i]
                    != masters[0][i];
            lemma_a_difference_is_a_step(masters, m, i);
            assert(any_row_varies(masters));
            assert forall|i: int| 0 <= i < r.len() implies are_deltas_of(
                f,
                places,
                relative_row(masters, i),
                (#[trigger] r[i]).deltas@,
            ) by {
                assert(row_deltas(f, places, masters, i, r[i].deltas@));
            }
        }
    }
}

proof fn lemma_shortest_is_the_least(masters: Seq<Seq<i32>>)
    requires
        masters.len() > 0,
    ensures
        forall|m: int| 0 <= m < masters.len() ==> shortest(masters) <= (#[trigger] masters[m]).len(),
        exists|m: int| 0 <= m < masters.len() && shortest(masters) == (#[trigger] masters[m]).len(),
    decreases masters.len(),
{
    if masters.len() == 1 {
        assert(masters[0].len() == shortest(masters));
    } else {
        let rest = masters.drop_last();
        lemma_shortest_is_the_least(rest);
        assert forall|m: int| 0 <= m < masters.len() implies shortest(masters) <= (
        #[trigger] masters[m]).len() by {
            if m < rest.len() {
                assert(rest[m] == masters[m]);
            }
        }
        if masters.last().len() < shortest(rest) {
            assert(masters[masters.len() - 1].len() == shortest(masters));
        } else {
            let m = choose|m: int| 0 <= m < rest.len() && shortest(rest) == (#[trigger] rest[m]).len();
            assert(masters[m].len() == shortest(masters));
        }
    }
}

proof fn lemma_a_difference_is_a_step(masters: Seq<Seq<i32>>, m: int, i: int)
    requires
        0 <= m < masters.len(),
        0 <= i < shortest(masters),
        masters[m][i] != masters[0][i],
    ensures
        any_row_varies(masters),
    decreases i,
{
    lemma_shortest_is_the_least(masters);
    let values = relative_row(masters, i);
    if i > 0 && masters[m][i - 1] != masters[0][i - 1] {
        lemma_a_difference_is_a_step(masters, m, i - 1);
    } else {
        assert(values[m] != values[0]);
        assert(!same_throughout(values));
    }
}

/// Each list of a blended Private DICT blends the masters' lists of the same
/// name, and no other list plays a part in it.
pub proof fn law_lists_blend_under_their_own_names<
    F: Fn(&Vec<Location>, &Vec<Number>) -> Vec<Number>,
    C: Fn(Real) -> Number,
>(
    f: F,
    places: Seq<Map<Tag, Real>>,
    number: C,
    masters: Seq<PrivateDictValues>,
    read_back: Real,
    r: Cff2PrivateDictValues,
)
    requires
        masters.len() > 0,
        private_blends_to(f, places, number, masters, read_back, r),
    ensures
        list_blends_to(
            f,
            places,
            masters[0].blue_values@,
            masters.map_values(|m: PrivateDictValues| m.blue_values@),
            r.blue_values@,
        ),
        list_blends_to(
            f,
            places,
            masters[0].other_blues@,
            masters.map_values(|m: PrivateDictValues| m.other_blues@),
            r.other_blues@,
        ),
        list_blends_to(
            f,
            places,
            masters[0].family_blues@,
            masters.map_values(|m: PrivateDictValues| m.family_blues@),
            r.family_blues@,
        ),
        list_blends_to(
            f,
            places,
            masters[0].family_other_blues@,
            masters.map_values(|m: PrivateDictValues| m.family_other_blues@),
            r.family_other_blues@,
        ),
        list_blends_to(
            f,
            places,
            masters[0].stem_snap_h@,
            masters.map_values(|m: PrivateDictValues| m.stem_snap_h@),
            r.stem_snap_h@,
        ),
        list_blends_to(
            f,
            places,
            masters[0].stem_snap_v@,
            masters.map_values(|m: PrivateDictValues| m.stem_snap_v@),
            r.stem_snap_v@,
        ),
{
    assert(masters.map_values(|m: PrivateDictValues| m.blue_values@) =~= masters.map_values(
        |m: PrivateDictValues| list_of(m, ListKey::BlueValues),
    ));
    assert(masters.map_values(|m: PrivateDictValues| m.other_blues@) =~= masters.map_values(
        |m: PrivateDictValues| list_of(m, ListKey::OtherBlues),
    ));
    assert(masters.map_values(|m: PrivateDictValues| m.family_blues@) =~= masters.map_values(
        |m: PrivateDictValues| list_of(m, ListKey::FamilyBlues),
    ));
    assert(masters.map_values(|m: PrivateDictValues| m.family_other_blues@) =~= masters.map_values(
        |m: PrivateDictValues| list_of(m, ListKey::FamilyOtherBlues),
    ));
    assert(masters.map_values(|m: PrivateDictValues| m.stem_snap_h@) =~= masters.map_values(
        |m: PrivateDictValues| list_of(m, ListKey::StemSnapH),
    ));
    assert(masters.map_values(|m: PrivateDictValues| m.stem_snap_v@) =~= masters.map_values(
        |m: PrivateDictValues| list_of(m, ListKey::StemSnapV),
    ));
}

/// The default values of each list of a blended Private DICT are those of the
/// default master's list of the same name, as far as they go.
pub proof fn law_defaults_are_the_default_masters<
    F: Fn(&Vec<Location>, &Vec<Number>) -> Vec<Number>,
    C: Fn(Real) -> Number,
>(
    f: F,
    places: Seq<Map<Tag, Real>>,
    number: C,
    masters: Seq<PrivateDictValues>,
    read_back: Real,
    r: Cff2PrivateDictValues,
    i: int,
)
    requires
        masters.len() > 0,
        private_blends_to(f, places, number, masters, read_back, r),
        0 <= i,
    ensures
        i < r.blue_values@.len() ==> r.blue_values@[i].default == Number::Int(
            masters[0].blue_values@[i] as i64,
        ),
        i < r.other_blues@.len() ==> r.other_blues@[i].default == Number::Int(
            masters[0].other_blues@[i] as i64,
        ),
        i < r.family_blues@.len() ==> r.family_blues@[i].default == Number::Int(
            masters[0].family_blues@[i] as i64,
        ),
        i < r.family_other_blues@.len() ==> r.family_other_blues@[i].default == Number::Int(
            masters[0].family_other_blues@[i] as i64,
        ),
        i < r.stem_snap_h@.len() ==> r.stem_snap_h@[i].default == Number::Int(
            masters[0].stem_snap_h@[i] as i64,
        ),
        i < r.stem_snap_v@.len() ==> r.stem_snap_v@[i].default == Number::Int(
            masters[0].stem_snap_v@[i] as i64,
        ),
{
    law_lists_blend_under_their_own_names(f, places, number, masters, read_back, r);
    law_lists_blend_row_by_row(
        f,
        places,
        masters.map_values(|m: PrivateDictValues| m.blue_values@),
        r.blue_values@,
    );
    law_lists_blend_row_by_row(
        f,
        places,
        masters.map_values(|m: PrivateDictValues| m.other_blues@),
        r.other_blues@,
    );
    law_lists_blend_row_by_row(
        f,
        places,
        masters.map_values(|m: PrivateDictValues| m.family_blues@),
        r.family_blues@,
    );
    law_lists_blend_row_by_row(
        f,
        places,
        masters.map_values(|m: PrivateDictValues| m.family_other_blues@),
        r.family_other_blues@,
    );
    law_lists_blend_row_by_row(
        f,
        places,
        masters.map_values(|m: PrivateDictValues| m.stem_snap_h@),
        r.stem_snap_h@,
    );
    law_lists_blend_row_by_row(
        f,
        places,
        masters.map_values(|m: PrivateDictValues| m.stem_snap_v@),
        r.stem_snap_v@,
    );
}

/// Two fonts whose masters have the same vertical stems may have the same
/// blended vertical stems, however much their horizontal ones differ, and the
/// other way round.
pub proof fn law_stems_of_one_direction_do_not_reach_the_other<
    F: Fn(&Vec<Location>, &Vec<Number>) -> Vec<Number>,
    C: Fn(Real) -> Number,
>(
    f: F,
    places: Seq<Map<Tag, Real>>,
    number: C,
    masters: Seq<PrivateDictValues>,
    others: Seq<PrivateDictValues>,
    read_back: Real,
    r: Cff2PrivateDictValues,
    blues: Cff2PrivateDictValues,
)
    requires
        masters.len() > 0,
        others.len() == masters.len(),
        private_blends_to(f, places, number, masters, read_back, r),
        private_blends_to(f, places, number, others, read_back, blues),
    ensures
        (forall|m: int|
            0 <= m < masters.len() ==> (#[trigger] masters[m]).stem_snap_v@
                == others[m].stem_snap_v@) ==> list_blends_to(
            f,
            places,
            others[0].stem_snap_v@,
            others.map_values(|m: PrivateDictValues| m.stem_snap_v@),
            r.stem_snap_v@,
        ),
        (forall|m: int|
            0 <= m < masters.len() ==> (#[trigger] masters[m]).stem_snap_h@
                == others[m].stem_snap_h@) ==> list_blends_to(
            f,
            places,
            others[0].stem_snap_h@,
            others.map_values(|m: PrivateDictValues| m.stem_snap_h@),
            r.stem_snap_h@,
        ),
{
    law_lists_blend_under_their_own_names(f, places, number, masters, read_back, r);
    if forall|m: int|
        0 <= m < masters.len() ==> (#[trigger] masters[m]).stem_snap_v@ == others[m].stem_snap_v@ {
        assert(masters[0].stem_snap_v@ == others[0].stem_snap_v@);
        assert(others.map_values(|m: PrivateDictValues| m.stem_snap_v@) =~= masters.map_values(
            |m: PrivateDictValues| m.stem_snap_v@,
        )) by {
            assert forall|m: int| 0 <= m < masters.len() implies others[m].stem_snap_v@
                == masters[m].stem_snap_v@ by {}
        }
    }
    if forall|m: int|
        0 <= m < masters.len() ==> (#[trigger] masters[m]).stem_snap_h@ == others[m].stem_snap_h@ {
        assert(masters[0].stem_snap_h@ == others[0].stem_snap_h@);
        assert(others.map_values(|m: PrivateDictValues| m.stem_snap_h@) =~= masters.map_values(
            |m: PrivateDictValues| m.stem_snap_h@,
        )) by {
            assert forall|m: int| 0 <= m < masters.len() implies others[m].stem_snap_h@
                == masters[m].stem_snap_h@ by {}
        }
    }
}

/// The blue scalars are written only if the default master states something
/// other than what a reader would take for granted: a shift of 7, a fuzz of 1,
/// and a scale of 0.039625. Each then blends the masters' own values, with
/// those same numbers for masters that state none.
pub proof fn law_blue_scalars_are_written_if_unusual<
    F: Fn(&Vec<Location>, &Vec<Number>) -> Vec<Number>,
    C: Fn(Real) -> Number,
>(
    f: F,
    places: Seq<Map<Tag, Real>>,
    number: C,
    masters: Seq<PrivateDictValues>,
    read_back: Real,
    r: Cff2PrivateDictValues,
)
    requires
        masters.len() > 0,
        private_blends_to(f, places, number, masters, read_back, r),
    ensures
        r.blue_shift is Some <==> (masters[0].blue_shift matches Some(v) && v != 7),
        r.blue_fuzz is Some <==> (masters[0].blue_fuzz matches Some(v) && v != 1),
        r.blue_scale is Some <==> masters[0].blue_scale is Some && read_back != 0x3FA449BA5E353F7D,
        r.blue_shift matches Some(blend) ==> blends_to(
            f,
            places,
            masters.map_values(
                |m: PrivateDictValues|
                    Number::Int(
                        match m.blue_shift {
                            Some(v) => v as i64,
                            None => 7,
                        },
                    ),
            ),
            blend,
        ),
        r.blue_fuzz matches Some(blend) ==> blends_to(
            f,
            places,
            masters.map_values(
                |m: PrivateDictValues|
                    Number::Int(
                        match m.blue_fuzz {
                            Some(v) => v as i64,
                            None => 1,
                        },
                    ),
            ),
            blend,
        ),
        r.blue_scale matches Some(blend) ==> exists|values: Seq<Number>| #[trigger]
            blends_to(f, places, values, blend) && values.len() == masters.len() && values[0]
                == numeric::image(number, read_back) && forall|m: int|
                0 < m < masters.len() ==> #[trigger] values[m] == numeric::image(
                    number,
                    match masters[m].blue_scale {
                        Some(v) => v,
                        None => 0x3FA449BA5E353F7D,
                    },
                ),
{
    assert(masters.map_values(
        |m: PrivateDictValues|
            Number::Int(
                match m.blue_shift {
                    Some(v) => v as i64,
                    None => 7,
                },
            ),
    ) =~= blue_shifts(masters));
    assert(masters.map_values(
        |m: PrivateDictValues|
            Number::Int(
                match m.blue_fuzz {
                    Some(v) => v as i64,
                    None => 1,
                },
            ),
    ) =~= blue_fuzzes(masters));
    if let Some(blend) = r.blue_scale {
        assert(blends_to(f, places, blue_scales(number, masters, read_back), blend));
    }
}

/// The standard widths blend under their own names: nothing if the default
/// master states none, its own if another master states none, and otherwise
/// those of all masters.
pub proof fn law_standard_widths_blend_under_their_own_names<
    F: Fn(&Vec<Location>, &Vec<Number>) -> Vec<Number>,
    C: Fn(Real) -> Number,
>(
    f: F,
    places: Seq<Map<Tag, Real>>,
    number: C,
    masters: Seq<PrivateDictValues>,
    read_back: Real,
    r: Cff2PrivateDictValues,
)
    requires
        masters.len() > 0,
        private_blends_to(f, places, number, masters, read_back, r),
    ensures
        optional_blends_to(f, places, masters.map_values(|m: PrivateDictValues| m.std_hw), r.std_hw),
        optional_blends_to(f, places, masters.map_values(|m: PrivateDictValues| m.std_vw), r.std_vw),
        r.std_hw is Some <==> masters[0].std_hw is Some,
        r.std_vw is Some <==> masters[0].std_vw is Some,
{
}

/// A number that masters may leave out is there exactly if the default master
/// states it. If another leaves it out, it does not vary and is the default
/// master's; otherwise the numbers of all masters blend.
pub proof fn law_numbers_left_out_do_not_vary<
    F: Fn(&Vec<Location>, &Vec<Number>) -> Vec<Number>,
>(f: F, places: Seq<Map<Tag, Real>>, values: Seq<Option<i32>>, r: Option<Blend>)
    requires
        values.len() > 0,
        optional_blends_to(f, places, values, r),
    ensures
        r is Some <==> values[0] is Some,
        values[0] matches Some(v) ==> (exists|m: int|
            0 <= m < values.len() && (#[trigger] values[m]) is None) ==> (r matches Some(blend)
            && blend.default == Number::Int(v as i64) && blend.deltas@.len() == 0),
        (forall|m: int| 0 <= m < values.len() ==> (#[trigger] values[m]) is Some) ==> (r matches Some(
            blend,
        ) && exists|all: Seq<Number>| #[trigger]
            blends_to(f, places, all, blend) && all.len() == values.len() && forall|m: int|
                0 <= m < values.len() ==> (values[m] matches Some(v) && #[trigger] all[m]
                    == Number::Int(v as i64))),
{
    if forall|m: int| 0 <= m < values.len() ==> (#[trigger] values[m]) is Some {
        assert(values[0] is Some);
        let all = values.map_values(|v: Option<i32>| Number::Int(v->0 as i64));
        assert(blends_to(f, places, all, r->0));
        assert forall|m: int| 0 <= m < values.len() implies (values[m] matches Some(v)
            && #[trigger] all[m] == Number::Int(v as i64)) by {
            assert(values[m] is Some);
        }
    }
}

/// Masters that have an index get the one that they have. Others get the next
/// one, for them alone, and the regions of their model, all but the first, are
/// listed: the subtable says where each of them stands, in order.
pub proof fn law_indices_stand_for_sets_of_masters(
    plan: PlanState,
    mask: Seq<bool>,
    regions: Seq<Seq<(Tag, Tent)>>,
    i: int,
)
    requires
        plan.wf(),
        plan.masks.len() <= 0xffff,
        claim(plan, mask, regions).0.regions.len() <= 0x10000,
    ensures
        ({
            let (after, index) = claim(plan, mask, regions);
            &&& index < after.masks.len() && after.masks[index as int] == mask
            &&& after.masks.len() == after.subtables.len()
            &&& plan.masks.contains(mask) ==> after == plan
            &&& !plan.masks.contains(mask) ==> after.masks == plan.masks.push(mask)
            &&& !plan.masks.contains(mask) && regions.len() > 0 ==> after.subtables.last().len()
                == regions.len() - 1
            &&& !plan.masks.contains(mask) && 0 < i < regions.len()
                ==> after.subtables.last()[i - 1] < after.regions.len()
                && after.regions[after.subtables.last()[i - 1] as int] == regions[i]
        }),
{
    let supports = supports_of(regions);
    if plan.masks.contains(mask) {
        let k = plan.masks.index_of(mask);
        assert(plan.masks[k] == mask);
    } else if 0 < i < regions.len() {
        assert(supports[i - 1] == regions[i]);
        law_subtables_point_at_the_models_regions(plan, mask, regions, i - 1);
    }
}

pub proof fn lemma_last_fitted_is_the_last<V>(
    list: Seq<(Location, V)>,
    axes: Seq<Tag>,
    at: Map<Tag, Real>,
)
    ensures
        match last_fitted(list, axes, at) {
            Some(k) => 0 <= k < list.len() && coords::fitted(list[k].0@, axes) == at && forall|
                i: int,
            |
                k < i < list.len() ==> coords::fitted((#[trigger] list[i]).0@, axes) != at,
            None => forall|i: int|
                0 <= i < list.len() ==> coords::fitted((#[trigger] list[i]).0@, axes) != at,
        },
    decreases list.len(),
{
    if list.len() > 0 {
        let rest = list.drop_last();
        lemma_last_fitted_is_the_last(rest, axes, at);
        assert forall|i: int| 0 <= i < rest.len() implies rest[i] == #[trigger] list[i] by {}
    }
}

/// A master blends with the settings that are at its own location, once that
/// is restricted to the axes of the font, and a master without any with those
/// of the default location.
pub proof fn law_masters_blend_with_their_own_settings(
    static_metadata: StaticMetadata,
    at: Map<Tag, Real>,
    r: PostscriptSettings,
    k: int,
)
    requires
        settings_at(static_metadata, at, r),
        0 <= k < static_metadata.postscript@.len(),
    ensures
        ({
            let list = static_metadata.postscript@;
            let axes = static_metadata.axes@.map_values(|a: coords::Axis| a.tag);
            &&& coords::fitted(list[k].0@, axes) == at && (forall|i: int|
                k < i < list.len() ==> coords::fitted((#[trigger] list[i]).0@, axes) != at)
                ==> r.same_as(&list[k].1)
            &&& (forall|i: int|
                0 <= i < list.len() ==> coords::fitted((#[trigger] list[i]).0@, axes) != at)
                && list[k].0@ == static_metadata.home() && (forall|i: int|
                0 <= i < list.len() && i != k ==> (#[trigger] list[i]).0@ != static_metadata.home())
                ==> r.same_as(&list[k].1)
        }),
{
    let list = static_metadata.postscript@;
    let axes = static_metadata.axes@.map_values(|a: coords::Axis| a.tag);
    assert(axes =~= coords::tags_of(static_metadata.axes@));
    lemma_last_fitted_is_the_last(list, axes, at);
    coords::lemma_placed(list, static_metadata.home());
}

proof fn lemma_glyph_places_are_all(sources: Seq<Vec<Location>>, axes: Seq<Tag>, g: int, k: int)
    requires
        0 <= g < sources.len(),
        0 <= k < sources[g]@.len(),
    ensures
        glyph_places(sources, axes).contains(coords::fitted(sources[g]@[k]@, axes)),
    decreases sources.len(),
{
    let rest = sources.drop_last();
    let at = coords::fitted(sources[g]@[k]@, axes);
    let tail = fitted_places(sources.last()@, axes);
    let front = glyph_places(rest, axes);
    if g < rest.len() {
        assert(rest[g] == sources[g]);
        lemma_glyph_places_are_all(rest, axes, g, k);
        let i = choose|i: int| 0 <= i < front.len() && front[i] == at;
        assert((front + tail)[i] == at);
    } else {
        assert(tail[k] == at);
        assert((front + tail)[front.len() + k] == at);
    }
}

/// The masters of a font are where its global model is and where any glyph is
/// drawn, once that is restricted to the axes of the font, and each is there
/// only once.
pub proof fn law_masters_are_wherever_a_glyph_is_drawn(
    global: Seq<Location>,
    sources: Seq<Vec<Location>>,
    axes: Seq<Tag>,
)
    ensures
        ({
            let all = lookup::first_seen(coords::places(global) + glyph_places(sources, axes));
            &&& all.no_duplicates()
            &&& forall|i: int| 0 <= i < global.len() ==> all.contains((#[trigger] global[i])@)
            &&& forall|g: int, k: int|
                0 <= g < sources.len() && 0 <= k < sources[g]@.len() ==> all.contains(
                    coords::fitted((#[trigger] sources[g]@[k])@, axes),
                )
        }),
{
    let listed = coords::places(global) + glyph_places(sources, axes);
    let all = lookup::first_seen(listed);
    lookup::lemma_first_seen_contains(listed);
    assert forall|i: int| 0 <= i < global.len() implies all.contains((#[trigger] global[i])@) by {
        assert(listed[i] == global[i]@);
    }
    assert forall|g: int, k: int|
        0 <= g < sources.len() && 0 <= k < sources[g]@.len() implies all.contains(
        coords::fitted((#[trigger] sources[g]@[k])@, axes),
    ) by {
        lemma_glyph_places_are_all(sources, axes, g, k);
        let tail = glyph_places(sources, axes);
        let at = coords::fitted(sources[g]@[k]@, axes);
        let i = choose|i: int| 0 <= i < tail.len() && tail[i] == at;
        assert(listed[global.len() + i] == at);
    }
}

proof fn lemma_fitted_outlines_are_where_they_are(
    outlines: Seq<(Location, Vec<PathEl>)>,
    axes: Seq<Tag>,
    at: Map<Tag, Real>,
)
    ensures
        fitted_outlines(outlines, axes).contains_key(at) <==> exists|i: int|
            0 <= i < outlines.len() && coords::fitted((#[trigger] outlines[i]).0@, axes) == at,
    decreases outlines.len(),
{
    if outlines.len() > 0 {
        let rest = outlines.drop_last();
        let last = outlines.len() - 1;
        lemma_fitted_outlines_are_where_they_are(rest, axes, at);
        if exists|i: int|
            0 <= i < outlines.len() && coords::fitted((#[trigger] outlines[i]).0@, axes) == at {
            let i = choose|i: int|
                0 <= i < outlines.len() && coords::fitted((#[trigger] outlines[i]).0@, axes) == at;
            if i < last {
                assert(rest[i] == outlines[i]);
            }
        }
        if exists|i: int| 0 <= i < rest.len() && coords::fitted((#[trigger] rest[i]).0@, axes) == at {
            let i = choose|i: int|
                0 <= i < rest.len() && coords::fitted((#[trigger] rest[i]).0@, axes) == at;
            assert(outlines[i] == rest[i]);
        }
        if coords::fitted(outlines.last().0@, axes) == at {
            assert(coords::fitted(outlines[last].0@, axes) == at);
        }
    }
}

proof fn lemma_the_last_fitted_outline_counts(
    outlines: Seq<(Location, Vec<PathEl>)>,
    axes: Seq<Tag>,
    k: int,
)
    requires
        0 <= k < outlines.len(),
        forall|i: int|
            k < i < outlines.len() ==> coords::fitted((#[trigger] outlines[i]).0@, axes)
                != coords::fitted(outlines[k].0@, axes),
    ensures
        fitted_outlines(outlines, axes).contains_key(coords::fitted(outlines[k].0@, axes)),
        fitted_outlines(outlines, axes)[coords::fitted(outlines[k].0@, axes)] == outlines[k].1@,
    decreases outlines.len(),
{
    let last = outlines.len() - 1;
    if k < last {
        let rest = outlines.drop_last();
        assert forall|i: int| k < i < rest.len() implies coords::fitted(
            (#[trigger] rest[i]).0@,
            axes,
        ) != coords::fitted(rest[k].0@, axes) by {
            assert(rest[i] == outlines[i]);
        }
        lemma_the_last_fitted_outline_counts(rest, axes, k);
        assert(rest[k] == outlines[k]);
        assert(coords::fitted(outlines[last].0@, axes) != coords::fitted(outlines[k].0@, axes));
    }
}

/// A glyph is drawn in a master from the last of its outlines that is there
/// once its location is restricted to the axes of the font. It varies across
/// the default master and every further one in which it draws something.
pub proof fn law_glyphs_vary_across_the_masters_that_draw_them(
    build: Cff2Build,
    glyph_name: Seq<char>,
    outlines: Seq<(Location, Vec<PathEl>)>,
    job: GlyphJob,
    m: int,
)
    requires
        build.wf(),
        build.is_job_for(glyph_name, outlines, job),
        !build.synthesized_notdef || glyph_name != ".notdef"@,
        0 <= m < build.masters@.len(),
    ensures
        job.mask@.len() == build.masters@.len(),
        job.mask@[build.default_index as int],
        (forall|i: int|
            0 <= i < outlines.len() ==> coords::fitted(
                (#[trigger] outlines[i]).0@,
                build.axis_order@,
            ) != build.masters@[m]@) ==> !outline_map(job.outlines@).contains_key(
            build.masters@[m]@,
        ) && job.mask@[m] == (m == build.default_index),
        forall|k: int|
            0 <= k < outlines.len() && coords::fitted((#[trigger] outlines[k]).0@, build.axis_order@)
                == build.masters@[m]@ && (forall|i: int|
                k < i < outlines.len() ==> coords::fitted(
                    (#[trigger] outlines[i]).0@,
                    build.axis_order@,
                ) != build.masters@[m]@) ==> {
                &&& outline_map(job.outlines@).contains_key(build.masters@[m]@)
                &&& outline_map(job.outlines@)[build.masters@[m]@] == outlines[k].1@
                &&& job.mask@[m] == (m == build.default_index || outlines[k].1@.len() > 0)
            },
{
    let axes = build.axis_order@;
    let at = build.masters@[m]@;
    lemma_fitted_outlines_are_where_they_are(outlines, axes, at);
    assert forall|k: int|
        0 <= k < outlines.len() && coords::fitted((#[trigger] outlines[k]).0@, axes) == at && (forall|
            i: int,
        |
            k < i < outlines.len() ==> coords::fitted((#[trigger] outlines[i]).0@, axes) != at)
        implies fitted_outlines(outlines, axes).contains_key(at) && fitted_outlines(
        outlines,
        axes,
    )[at] == outlines[k].1@ by {
        lemma_the_last_fitted_outline_counts(outlines, axes, k);
    }
}

proof fn lemma_filled_is_everywhere(
    outlines: Map<Map<Tag, Real>, Seq<PathEl>>,
    masters: Seq<Location>,
    outline: Seq<PathEl>,
    at: Map<Tag, Real>,
)
    ensures
        outlines.contains_key(at) ==> filled(outlines, masters, outline).contains_key(at) && filled(
            outlines,
            masters,
            outline,
        )[at] == outlines[at],
        !outlines.contains_key(at) ==> (filled(outlines, masters, outline).contains_key(at)
            <==> exists|i: int| 0 <= i < masters.len() && (#[trigger] masters[i])@ == at),
        !outlines.contains_key(at) && filled(outlines, masters, outline).contains_key(at) ==> filled(
            outlines,
            masters,
            outline,
        )[at] == outline,
    decreases masters.len(),
{
    if masters.len() > 0 {
        let rest = masters.drop_last();
        lemma_filled_is_everywhere(outlines, rest, outline, at);
        assert forall|i: int| 0 <= i < rest.len() implies rest[i] == #[trigger] masters[i] by {}
        assert(masters[masters.len() - 1] == masters.last());
        if exists|i: int| 0 <= i < masters.len() && (#[trigger] masters[i])@ == at {
            let i = choose|i: int| 0 <= i < masters.len() && (#[trigger] masters[i])@ == at;
            if i < rest.len() {
                assert(rest[i]@ == at);
            }
        }
        if exists|i: int| 0 <= i < rest.len() && (#[trigger] rest[i])@ == at {
            let i = choose|i: int| 0 <= i < rest.len() && (#[trigger] rest[i])@ == at;
            assert(masters[i]@ == at);
        }
    }
}

/// A `.notdef` that was made up looks the same in every master that it has no
/// outline for: as it does in the default master.
pub proof fn law_a_made_up_notdef_is_the_same_everywhere(
    build: Cff2Build,
    outlines: Seq<(Location, Vec<PathEl>)>,
    job: GlyphJob,
    m: int,
)
    requires
        build.wf(),
        build.synthesized_notdef,
        build.is_job_for(".notdef"@, outlines, job),
        0 <= m < build.masters@.len(),
        exists|i: int|
            0 <= i < outlines.len() && coords::fitted(
                (#[trigger] outlines[i]).0@,
                build.axis_order@,
            ) == build.masters@[build.default_index as int]@,
    ensures
        outline_map(job.outlines@).contains_key(build.masters@[m]@),
        (forall|i: int|
            0 <= i < outlines.len() ==> coords::fitted(
                (#[trigger] outlines[i]).0@,
                build.axis_order@,
            ) != build.masters@[m]@) ==> outline_map(job.outlines@)[build.masters@[m]@]
            == outline_map(job.outlines@)[build.masters@[build.default_index as int]@],
        job.mask@[m] == (m == build.default_index || outline_map(
            job.outlines@,
        )[build.masters@[m]@].len() > 0),
{
    let home = build.masters@[build.default_index as int]@;
    let own = fitted_outlines(outlines, build.axis_order@);
    lemma_fitted_outlines_are_where_they_are(outlines, build.axis_order@, build.masters@[m]@);
    lemma_fitted_outlines_are_where_they_are(outlines, build.axis_order@, home);
    lemma_filled_is_everywhere(own, build.masters@, own[home], build.masters@[m]@);
    lemma_filled_is_everywhere(own, build.masters@, own[home], home);
}

/// Which masters a model is made of goes by the mask, one master after the
/// other, and as many take part as are masked.
pub proof fn law_masks_pick_masters(
    masters: Seq<Location>,
    mask: Seq<bool>,
    master: Location,
    taken: bool,
)
    requires
        masters.len() == mask.len(),
    ensures
        picked(Seq::empty(), Seq::empty()).len() == 0,
        count(Seq::empty()) == 0,
        picked(masters.push(master), mask.push(taken)) == if taken {
            picked(masters, mask).push(master@)
        } else {
            picked(masters, mask)
        },
        count(mask.push(taken)) == if taken {
            count(mask) + 1
        } else {
            count(mask)
        },
{
    assert(masters.push(master).drop_last() =~= masters);
    assert(mask.push(taken).drop_last() =~= mask);
    lemma_picked_reads_its_mask(masters, mask, mask.push(taken));
}

proof fn lemma_picked_reads_its_mask(masters: Seq<Location>, mask: Seq<bool>, longer: Seq<bool>)
    requires
        masters.len() <= mask.len(),
        masters.len() <= longer.len(),
        forall|i: int| 0 <= i < masters.len() ==> mask[i] == longer[i],
    ensures
        picked(masters, mask) == picked(masters, longer),
    decreases masters.len(),
{
    if masters.len() > 0 {
        lemma_picked_reads_its_mask(masters.drop_last(), mask, longer);
        assert(mask[masters.len() - 1] == longer[masters.len() - 1]);
    }
}

} // verus!
