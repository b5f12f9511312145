//! The axes of a Glyphs source, and which of its masters they reach.

use crate::coords;
use crate::coords::{Axis, CoordConverter, Real, Tag, TagProblem};
use crate::glyphs_source;
use crate::glyphs_source::{Font, FontMaster, Instance, InstanceType, Layer};
use crate::lookup;
use crate::pin;
use crate::pin_metadata;
use vstd::prelude::*;

verus! {

/// Whether `r` is a mapping of user to design positions read backwards: every
/// design position once, in ascending order, with the largest user position
/// that it stands for.
pub open spec fn is_reversal(mappings: Seq<(Real, Real)>, r: Seq<(Real, Real)>) -> bool {
    &&& forall|i: int, j: int| 0 <= i < j < r.len() ==> (#[trigger] r[i]).0 < (#[trigger] r[j]).0
    &&& forall|i: int| 0 <= i < r.len() ==> #[trigger] is_read_off(mappings, r[i])
    &&& forall|k: int| 0 <= k < mappings.len() ==> #[trigger] is_covered(mappings[k], r)
}

/// Whether a pair stands in a mapping the other way round.
pub open spec fn is_read_off(mappings: Seq<(Real, Real)>, pair: (Real, Real)) -> bool {
    mappings.contains((pair.1, pair.0))
}

/// Whether a pair is in a reversed mapping, or one with a larger user position.
pub open spec fn is_covered(pair: (Real, Real), r: Seq<(Real, Real)>) -> bool {
    exists|i: int| 0 <= i < r.len() && (#[trigger] r[i]).0 == pair.1 && pair.0 <= r[i].1
}

/// There is only one way to read a mapping backwards.
pub proof fn law_a_mapping_has_one_reversal(
    mappings: Seq<(Real, Real)>,
    a: Seq<(Real, Real)>,
    b: Seq<(Real, Real)>,
)
    requires
        is_reversal(mappings, a),
        is_reversal(mappings, b),
    ensures
        a == b,
{
    lemma_reversal_is_included(mappings, a, b);
    lemma_reversal_is_included(mappings, b, a);
    lemma_ascending_and_included(a, b, a.len() as int);
    lemma_ascending_and_included(b, a, b.len() as int);
    assert(a.len() == b.len());
    assert forall|i: int| 0 <= i < a.len() implies a[i] == b[i] by {
        lemma_same_place(a, b, i);
    }
    assert(a =~= b);
}

proof fn lemma_reversal_is_included(
    mappings: Seq<(Real, Real)>,
    a: Seq<(Real, Real)>,
    b: Seq<(Real, Real)>,
)
    requires
        is_reversal(mappings, a),
        is_reversal(mappings, b),
    ensures
        forall|i: int| 0 <= i < a.len() ==> b.contains(#[trigger] a[i]),
{
    assert forall|i: int| 0 <= i < a.len() implies b.contains(#[trigger] a[i]) by {
        assert(is_read_off(mappings, a[i]));
        let pair = (a[i].1, a[i].0);
        let k = choose|k: int| 0 <= k < mappings.len() && mappings[k] == pair;
        assert(is_covered(mappings[k], b));
        let j = choose|j: int|
            0 <= j < b.len() && (#[trigger] b[j]).0 == pair.1 && pair.0 <= b[j].1;
        assert(is_read_off(mappings, b[j]));
        let back = (b[j].1, b[j].0);
        let m = choose|m: int| 0 <= m < mappings.len() && mappings[m] == back;
        assert(is_covered(mappings[m], a));
        let n = choose|n: int|
            0 <= n < a.len() && (#[trigger] a[n]).0 == back.1 && back.0 <= a[n].1;
        if n < i {
            assert(a[n].0 < a[i].0);
        } else if i < n {
            assert(a[i].0 < a[n].0);
        }
        assert(b[j] == a[i]);
    }
}

/// As many of `b` as of `a` are no further than any of `a`.
proof fn lemma_ascending_and_included(a: Seq<(Real, Real)>, b: Seq<(Real, Real)>, n: int)
    requires
        forall|i: int, j: int|
            0 <= i < j < a.len() ==> (#[trigger] a[i]).0 < (#[trigger] a[j]).0,
        forall|i: int, j: int|
            0 <= i < j < b.len() ==> (#[trigger] b[i]).0 < (#[trigger] b[j]).0,
        forall|i: int| 0 <= i < a.len() ==> b.contains(#[trigger] a[i]),
        0 <= n <= a.len(),
    ensures
        n <= b.len(),
        forall|i: int, j: int|
            0 <= i < n && 0 <= j < b.len() && #[trigger] a[i] == #[trigger] b[j] ==> i <= j,
    decreases n,
{
    if n > 0 {
        lemma_ascending_and_included(a, b, n - 1);
        let last = a[n - 1];
        let j = choose|j: int| 0 <= j < b.len() && b[j] == last;
        if n > 1 {
            let prev = a[n - 2];
            let k = choose|k: int| 0 <= k < b.len() && b[k] == prev;
            assert(n - 2 <= k);
            assert(prev.0 < last.0);
            if j <= k {
                if j < k {
                    assert(b[j].0 < b[k].0);
                }
            }
            assert(n - 1 <= j);
        }
        assert forall|i: int, m: int|
            0 <= i < n && 0 <= m < b.len() && #[trigger] a[i] == #[trigger] b[m] implies i <= m by {
            if i == n - 1 {
                if m < j {
                    assert(b[m].0 < b[j].0);
                } else if j < m {
                    assert(b[j].0 < b[m].0);
                }
            }
        }
    }
}

proof fn lemma_same_place(a: Seq<(Real, Real)>, b: Seq<(Real, Real)>, i: int)
    requires
        forall|i: int, j: int|
            0 <= i < j < a.len() ==> (#[trigger] a[i]).0 < (#[trigger] a[j]).0,
        forall|i: int, j: int|
            0 <= i < j < b.len() ==> (#[trigger] b[i]).0 < (#[trigger] b[j]).0,
        forall|i: int| 0 <= i < a.len() ==> b.contains(#[trigger] a[i]),
        forall|i: int| 0 <= i < b.len() ==> a.contains(#[trigger] b[i]),
        a.len() == b.len(),
        0 <= i < a.len(),
    ensures
        a[i] == b[i],
{
    lemma_ascending_and_included(a, b, a.len() as int);
    lemma_ascending_and_included(b, a, b.len() as int);
    let j = choose|j: int| 0 <= j < b.len() && b[j] == a[i];
    assert(i <= j);
    assert(b[j] == a[i]);
    assert(j <= i);
}

/// A mapping read backwards.
pub open spec fn reversal(mappings: Seq<(Real, Real)>) -> Seq<(Real, Real)> {
    choose|r: Seq<(Real, Real)>| is_reversal(mappings, r)
}

/// Read a mapping of user to design positions backwards.
///
/// Where several user positions share one design position, the largest wins.
pub fn reverse_mapping(mappings: &Vec<(Real, Real)>) -> (r: Vec<(Real, Real)>)
    ensures
        is_reversal(mappings@, r@),
        r@ == reversal(mappings@),
{
    let mut r: Vec<(Real, Real)> = Vec::new();
    let mut i: usize = 0;
    assert(is_reversal(mappings@.take(0), r@));
    while i < mappings.len()
        invariant
            i <= mappings@.len(),
            is_reversal(mappings@.take(i as int), r@),
        decreases mappings.len() - i,
    {
        let user: Real = mappings[i].0;
        let design: Real = mappings[i].1;
        let ghost before = r@;
        let ghost seen = mappings@.take(i as int);
        let ghost now = mappings@.take(i + 1);
        let mut at: usize = 0;
        while at < r.len() && r[at].0 < design
            invariant
                at <= r@.len(),
                forall|j: int| 0 <= j < at ==> (#[trigger] r@[j]).0 < design,
            decreases r.len() - at,
        {
            at = at + 1;
        }
        proof {
            assert forall|k: int| 0 <= k < seen.len() implies #[trigger] now[k] == seen[k] by {}
            assert(now[i as int] == mappings@[i as int]);
            assert forall|k: int| 0 <= k < before.len() implies #[trigger] is_read_off(
                now,
                before[k],
            ) by {
                assert(is_read_off(seen, before[k]));
                let pair = (before[k].1, before[k].0);
                let m = choose|m: int| 0 <= m < seen.len() && seen[m] == pair;
                assert(now[m] == pair);
            }
        }
        if at < r.len() && r[at].0 == design {
            if r[at].1 < user {
                r.set(at, (design, user));
            }
        } else {
            r.insert(at, (design, user));
        }
        proof {
            assert forall|k: int| 0 <= k < r@.len() implies #[trigger] is_read_off(
                now,
                r@[k],
            ) by {
                if r@[k] == (design, user) {
                    assert(now[i as int] == (user, design));
                } else if r@.len() == before.len() || k < at {
                    assert(r@[k] == before[k]);
                    assert(is_read_off(now, before[k]));
                } else {
                    assert(r@[k] == before[k - 1]);
                    assert(is_read_off(now, before[k - 1]));
                }
            }
            assert forall|k: int| 0 <= k < now.len() implies #[trigger] is_covered(now[k], r@) by {
                if k == i {
                    assert(r@[at as int].0 == design && user <= r@[at as int].1);
                } else {
                    assert(is_covered(seen[k], before));
                    let j = choose|j: int|
                        0 <= j < before.len() && (#[trigger] before[j]).0 == seen[k].1 && seen[k].0
                            <= before[j].1;
                    let there = if r@.len() == before.len() || j < at {
                        j
                    } else {
                        j + 1
                    };
                    assert(r@[there].0 == before[j].0 && before[j].1 <= r@[there].1);
                }
            }
            assert forall|x: int, y: int| 0 <= x < y < r@.len() implies (#[trigger] r@[x]).0 < (
            #[trigger] r@[y]).0 by {
                if r@.len() == before.len() {
                    assert(r@[x].0 == before[x].0 && r@[y].0 == before[y].0);
                } else {
                    let p = if x < at {
                        x
                    } else {
                        x - 1
                    };
                    let q = if y < at {
                        y
                    } else {
                        y - 1
                    };
                    if x != at {
                        assert(r@[x] == before[p]);
                    }
                    if y != at {
                        assert(r@[y] == before[q]);
                    }
                    if at < before.len() && y > at && q > at {
                        assert(before[at as int].0 < before[q].0);
                    }
                }
            }
        }
        i = i + 1;
    }
    assert(mappings@.take(i as int) =~= mappings@);
    proof {
        law_a_mapping_has_one_reversal(mappings@, r@, reversal(mappings@));
    }
    r
}

/// `r` may be what `f` reads off a list of pairs at `x`.
pub open spec fn reads_to<P: Fn(&Vec<(Real, Real)>, Real) -> Real>(
    f: P,
    pairs: Seq<(Real, Real)>,
    x: Real,
    r: Real,
) -> bool {
    exists|v: Vec<(Real, Real)>| v@ == pairs && #[trigger] call_ensures(f, (&v, x), r)
}

/// `f` gives one answer for all pairs and numbers: it interpolates between the
/// pairs, and beyond them goes on by offset.
pub open spec fn is_piecewise<P: Fn(&Vec<(Real, Real)>, Real) -> Real>(f: P) -> bool {
    &&& forall|v: Vec<(Real, Real)>, x: Real| call_requires(f, (&v, x))
    &&& forall|pairs: Seq<(Real, Real)>, x: Real, a: Real, b: Real| #[trigger]
        reads_to(f, pairs, x, a) && #[trigger] reads_to(f, pairs, x, b) ==> a == b
}

/// What `f` reads off a list of pairs at `x`.
pub open spec fn read_at<P: Fn(&Vec<(Real, Real)>, Real) -> Real>(
    f: P,
    pairs: Seq<(Real, Real)>,
    x: Real,
) -> Real {
    choose|r: Real| reads_to(f, pairs, x, r)
}

/// Read a design position back through a mapping to get a user position.
///
/// Masters record only where they are in design space. `piecewise` reads a
/// list of pairs.
pub fn to_user_coord<P: Fn(&Vec<(Real, Real)>, Real) -> Real>(
    mappings: &Vec<(Real, Real)>,
    design: Real,
    piecewise: &P,
) -> (r: Real)
    requires
        is_piecewise(*piecewise),
    ensures
        r == read_at(*piecewise, reversal(mappings@), design),
{
    let reversed: Vec<(Real, Real)> = reverse_mapping(mappings);
    let r: Real = piecewise(&reversed, design);
    assert(reads_to(*piecewise, reversal(mappings@), design, r));
    r
}

/// Why the axes of a source are not to be had.
#[derive(Debug, PartialEq, Eq)]
pub enum AxisError {
    /// A master does not have a value for each of the axes.
    InconsistentAxisDefinitions { axes: Vec<glyphs_source::Axis>, axis_values: Vec<Real> },
    /// The mapping does not name the user position of the default master.
    MissingMappingForUserCoord { axis_name: String, mappings: Vec<(Real, Real)>, value: Real },
    /// The mapping cannot be converted with, for the reason given.
    BadConverter(String),
    InvalidTag { raw_tag: String, cause: TagProblem },
    /// No master is left at the default location.
    NoDefaultMaster,
}

/// The least of some numbers.
pub open spec fn least(values: Seq<Real>) -> Real
    decreases values.len(),
{
    if values.len() <= 1 {
        values[0]
    } else {
        let rest = least(values.drop_last());
        if values.last() < rest {
            values.last()
        } else {
            rest
        }
    }
}

/// The greatest of some numbers.
pub open spec fn greatest(values: Seq<Real>) -> Real
    decreases values.len(),
{
    if values.len() <= 1 {
        values[0]
    } else {
        let rest = greatest(values.drop_last());
        if values.last() > rest {
            values.last()
        } else {
            rest
        }
    }
}

fn find_range(values: &Vec<Real>) -> (r: (Real, Real))
    requires
        values@.len() > 0,
    ensures
        r == (least(values@), greatest(values@)),
{
    let mut lo: Real = values[0];
    let mut hi: Real = values[0];
    let mut i: usize = 1;
    while i < values.len()
        invariant
            1 <= i <= values@.len(),
            lo == least(values@.take(i as int)),
            hi == greatest(values@.take(i as int)),
        decreases values.len() - i,
    {
        assert(values@.take(i + 1).drop_last() =~= values@.take(i as int));
        if values[i] < lo {
            lo = values[i];
        }
        if values[i] > hi {
            hi = values[i];
        }
        i = i + 1;
    }
    assert(values@.take(i as int) =~= values@);
    (lo, hi)
}

/// The user positions of a mapping.
pub open spec fn users(mappings: Seq<(Real, Real)>) -> Seq<Real> {
    mappings.map_values(|m: (Real, Real)| m.0)
}

/// Whether a mapping bends nothing.
pub open spec fn is_identity(mappings: Seq<(Real, Real)>) -> bool {
    forall|i: int| 0 <= i < mappings.len() ==> (#[trigger] mappings[i]).0 == mappings[i].1
}

/// The mapping of an axis, unless it bends nothing.
pub open spec fn bent(mapping: Option<Seq<(Real, Real)>>) -> Option<Seq<(Real, Real)>> {
    match mapping {
        Some(m) => if is_identity(m) {
            None
        } else {
            Some(m)
        },
        None => None,
    }
}

fn bends_nothing(mappings: &Vec<(Real, Real)>) -> (r: bool)
    ensures
        r == is_identity(mappings@),
{
    let mut i: usize = 0;
    while i < mappings.len()
        invariant
            i <= mappings@.len(),
            forall|j: int| 0 <= j < i ==> (#[trigger] mappings@[j]).0 == mappings@[j].1,
        decreases mappings.len() - i,
    {
        if mappings[i].0 != mappings[i].1 {
            return false;
        }
        i = i + 1;
    }
    true
}

/// The default of an axis in user space, before it is forced into its range.
pub open spec fn user_default<P: Fn(&Vec<(Real, Real)>, Real) -> Real>(
    piecewise: P,
    mappings: Seq<(Real, Real)>,
    default: Real,
) -> Real {
    read_at(piecewise, reversal(mappings), default)
}

/// A number, or the nearest bound if it is beyond it.
pub open spec fn clamped(x: Real, min: Real, max: Real) -> Real {
    if x < min {
        min
    } else if x > max {
        max
    } else {
        x
    }
}

/// The mapping an axis uses: the one that it has, unless the axis is a point
/// and the mapping doesn't reach its default.
pub open spec fn used_mapping<P: Fn(&Vec<(Real, Real)>, Real) -> Real>(
    piecewise: P,
    mapping: Option<Seq<(Real, Real)>>,
    values: Seq<Real>,
    default: Real,
) -> Option<Seq<(Real, Real)>> {
    match bent(mapping) {
        Some(m) => if least(values) != greatest(values) || least(users(m)) <= user_default(
            piecewise,
            m,
            default,
        ) <= greatest(users(m)) {
            Some(m)
        } else {
            None
        },
        None => None,
    }
}

/// The index of the first pair with a user position.
pub open spec fn first_with_user(mappings: Seq<(Real, Real)>, user: Real) -> Option<int>
    decreases mappings.len(),
{
    if mappings.len() == 0 {
        None
    } else {
        match first_with_user(mappings.drop_last(), user) {
            Some(i) => Some(i),
            None => if mappings.last().0 == user {
                Some(mappings.len() - 1)
            } else {
                None
            },
        }
    }
}

/// Whether the mapping of an axis may be refused, for a reason.
pub open spec fn may_be_refused<A: Fn(&Vec<(Real, Real)>, usize) -> Option<String>>(
    refuse: A,
    mappings: Seq<(Real, Real)>,
    idx: int,
    why: Option<String>,
) -> bool {
    exists|v: Vec<(Real, Real)>, at: usize|
        v@ == mappings && at == idx && #[trigger] call_ensures(refuse, (&v, at), why)
}

/// What is said of an axis whatever its range.
pub open spec fn is_axis_like(source: glyphs_source::Axis, axis: Axis) -> bool {
    &&& axis.name@ == source.name@
    &&& coords::tag_spelled(source.tag@) == Ok::<Tag, TagProblem>(axis.tag)
    &&& axis.hidden == (source.hidden == Some(true))
    &&& axis.ui_label_name@ == source.name@
}

/// The error for an axis whose tag is no tag.
pub open spec fn is_tag_error(source: glyphs_source::Axis, e: AxisError) -> bool {
    e matches AxisError::InvalidTag { raw_tag, cause } && raw_tag@ == source.tag@
        && coords::tag_spelled(source.tag@) == Err::<Tag, TagProblem>(cause)
}

/// `r` is what an axis with a mapping may become.
///
/// Its range is that of the mapping, never that of the masters. The default is
/// where the default master is, read backwards and forced into that range.
pub open spec fn mapped_axis_becomes<
    P: Fn(&Vec<(Real, Real)>, Real) -> Real,
    A: Fn(&Vec<(Real, Real)>, usize) -> Option<String>,
>(
    piecewise: P,
    refuse: A,
    m: Seq<(Real, Real)>,
    default: Real,
    source: glyphs_source::Axis,
    r: Result<Axis, AxisError>,
) -> bool {
    let min = least(users(m));
    let max = greatest(users(m));
    let at = clamped(user_default(piecewise, m, default), min, max);
    match (first_with_user(m, at), r) {
        (None, Err(e)) => e matches AxisError::MissingMappingForUserCoord {
            axis_name,
            mappings,
            value,
        } && axis_name@ == source.name@ && mappings@ == m && value == at,
        (None, Ok(_)) => false,
        (Some(idx), Err(AxisError::BadConverter(why))) => may_be_refused(
            refuse,
            m,
            idx,
            Some(why),
        ),
        (Some(idx), Err(e)) => may_be_refused(refuse, m, idx, None) && is_tag_error(source, e),
        (Some(idx), Ok(axis)) => {
            &&& may_be_refused(refuse, m, idx, None)
            &&& is_axis_like(source, axis)
            &&& (axis.min, axis.default, axis.max) == (min, at, max)
            &&& axis.converter matches CoordConverter::Mapped { mappings, default_idx }
                && mappings@ == m && default_idx == idx
        },
    }
}

/// `r` is what an axis without a mapping becomes: the range of its masters,
/// virtual ones too, in both spaces.
pub open spec fn unmapped_axis_becomes(
    values: Seq<Real>,
    default: Real,
    source: glyphs_source::Axis,
    r: Result<Axis, AxisError>,
) -> bool {
    match r {
        Err(e) => is_tag_error(source, e),
        Ok(axis) => {
            &&& is_axis_like(source, axis)
            &&& (axis.min, axis.default, axis.max) == (least(values), default, greatest(values))
            &&& axis.converter == (CoordConverter::Unmapped {
                min: least(values),
                default,
                max: greatest(values),
            })
        },
    }
}

/// `r` is what an axis may become.
pub open spec fn axis_becomes<
    P: Fn(&Vec<(Real, Real)>, Real) -> Real,
    A: Fn(&Vec<(Real, Real)>, usize) -> Option<String>,
>(
    piecewise: P,
    refuse: A,
    mapping: Option<Seq<(Real, Real)>>,
    values: Seq<Real>,
    default_idx: int,
    source: glyphs_source::Axis,
    r: Result<Axis, AxisError>,
) -> bool {
    let default = values[default_idx];
    match used_mapping(piecewise, mapping, values, default) {
        Some(m) => mapped_axis_becomes(piecewise, refuse, m, default, source, r),
        None => unmapped_axis_becomes(values, default, source, r),
    }
}

fn users_of(mappings: &Vec<(Real, Real)>) -> (r: Vec<Real>)
    ensures
        r@ == users(mappings@),
{
    let mut r: Vec<Real> = Vec::new();
    let mut i: usize = 0;
    while i < mappings.len()
        invariant
            i <= mappings@.len(),
            r@ =~= users(mappings@).take(i as int),
        decreases mappings.len() - i,
    {
        r.push(mappings[i].0);
        i = i + 1;
    }
    assert(r@ =~= users(mappings@));
    r
}

fn find_user(mappings: &Vec<(Real, Real)>, user: Real) -> (r: Option<usize>)
    ensures
        first_with_user(mappings@, user) == (match r {
            Some(i) => Some(i as int),
            None => None,
        }),
{
    let mut found: Option<usize> = None;
    let mut i: usize = 0;
    while i < mappings.len()
        invariant
            i <= mappings@.len(),
            first_with_user(mappings@.take(i as int), user) == (match found {
                Some(k) => Some(k as int),
                None => None,
            }),
        decreases mappings.len() - i,
    {
        assert(mappings@.take(i + 1).drop_last() =~= mappings@.take(i as int));
        if found.is_none() && mappings[i].0 == user {
            found = Some(i);
        }
        i = i + 1;
    }
    assert(mappings@.take(i as int) =~= mappings@);
    found
}

/// The range of an axis and how positions on it are converted.
struct AxisRange {
    min: Real,
    default: Real,
    max: Real,
    converter: CoordConverter,
}

fn name_axis(source: &glyphs_source::Axis, range: AxisRange) -> (r: Result<Axis, AxisError>)
    ensures
        match r {
            Err(e) => is_tag_error(*source, e),
            Ok(axis) => is_axis_like(*source, axis) && axis.min == range.min && axis.default
                == range.default && axis.max == range.max && axis.converter == range.converter,
        },
{
    match Tag::parse(source.tag.as_str()) {
        Err(cause) => Err(AxisError::InvalidTag { raw_tag: source.tag.clone(), cause }),
        Ok(tag) => Ok(
            Axis {
                name: source.name.clone(),
                tag,
                min: range.min,
                default: range.default,
                max: range.max,
                hidden: match source.hidden {
                    Some(hidden) => hidden,
                    None => false,
                },
                converter: range.converter,
                ui_label_name: source.name.clone(),
            },
        ),
    }
}

/// An axis of a source as an axis of a font.
///
/// `values` holds where the masters are on it and then where the virtual
/// masters are, which only matter to an axis without a mapping. `refuse` tells
/// why a mapping cannot be converted with, if it cannot.
pub fn to_ir_axis<
    P: Fn(&Vec<(Real, Real)>, Real) -> Real,
    A: Fn(&Vec<(Real, Real)>, usize) -> Option<String>,
>(
    mapping: Option<&Vec<(Real, Real)>>,
    values: &Vec<Real>,
    default_idx: usize,
    source: &glyphs_source::Axis,
    piecewise: &P,
    refuse: &A,
) -> (r: Result<Axis, AxisError>)
    requires
        default_idx < values@.len(),
        is_piecewise(*piecewise),
        forall|v: Vec<(Real, Real)>, at: usize| call_requires(*refuse, (&v, at)),
    ensures
        axis_becomes(
            *piecewise,
            *refuse,
            match mapping {
                Some(m) => Some(m@),
                None => None,
            },
            values@,
            default_idx as int,
            *source,
            r,
        ),
{
    let (min, max): (Real, Real) = find_range(values);
    let default: Real = values[default_idx];
    if let Some(m) = mapping {
        if !bends_nothing(m) {
            let (user_min, user_max): (Real, Real) = find_range(&users_of(m));
            let reading: Real = to_user_coord(m, default, piecewise);
            if min != max || (user_min <= reading && reading <= user_max) {
                let at: Real = if reading < user_min {
                    user_min
                } else if reading > user_max {
                    user_max
                } else {
                    reading
                };
                let idx: usize = match find_user(m, at) {
                    Some(idx) => idx,
                    None => {
                        return Err(
                            AxisError::MissingMappingForUserCoord {
                                axis_name: source.name.clone(),
                                mappings: lookup::copied(m),
                                value: at,
                            },
                        );
                    },
                };
                let verdict: Option<String> = refuse(m, idx);
                assert(may_be_refused(*refuse, m@, idx as int, verdict));
                if let Some(why) = verdict {
                    return Err(AxisError::BadConverter(why));
                }
                let converter = CoordConverter::Mapped {
                    mappings: lookup::copied(m),
                    default_idx: idx,
                };
                return name_axis(
                    source,
                    AxisRange { min: user_min, default: at, max: user_max, converter },
                );
            }
        }
    }
    let converter = CoordConverter::Unmapped { min, default, max };
    name_axis(source, AxisRange { min, default, max, converter })
}

/// 400, by rank.
pub const USUAL_WEIGHT: Real = 0x4079000000000000;

/// 100, by rank.
pub const USUAL_WIDTH: Real = 0x4059000000000000;

/// The user position at which an axis does nothing.
pub open spec fn idle_at(tag: Tag) -> Real {
    if tag == Tag(pin_metadata::WEIGHT) {
        USUAL_WEIGHT
    } else if tag == Tag(pin_metadata::WIDTH) {
        USUAL_WIDTH
    } else {
        0
    }
}

/// The user position at which an axis does nothing.
pub fn default_user_loc(tag: Tag) -> (r: Real)
    ensures
        r == idle_at(tag),
{
    if tag == Tag(pin_metadata::WEIGHT) {
        USUAL_WEIGHT
    } else if tag == Tag(pin_metadata::WIDTH) {
        USUAL_WIDTH
    } else {
        0
    }
}

/// Whether an axis is more than a slot that never moves: it has a range, or
/// sits somewhere unusual, or has a mapping that bends, or the source names it.
pub open spec fn is_wanted(axis: Axis, is_identity_map: bool, declares_axes: bool) -> bool {
    axis.min < axis.max || axis.min != idle_at(axis.tag) || !is_identity_map || declares_axes
}

/// Would this axis be an axis of the design space?
pub fn wanted_in_designspace(axis: &Axis, is_identity_map: bool, declares_axes: bool) -> (r: bool)
    ensures
        r == is_wanted(*axis, is_identity_map, declares_axes),
{
    axis.min < axis.max || axis.min != default_user_loc(axis.tag) || !is_identity_map
        || declares_axes
}

/// Where virtual masters are on the axis with a name.
pub open spec fn virtual_values(virtual_master: Seq<(String, Real)>, name: Seq<char>) -> Seq<Real>
    decreases virtual_master.len(),
{
    if virtual_master.len() == 0 {
        seq![]
    } else {
        let rest = virtual_values(virtual_master.drop_last(), name);
        if virtual_master.last().0@ == name {
            rest.push(virtual_master.last().1)
        } else {
            rest
        }
    }
}

pub open spec fn all_virtual_values(
    virtual_masters: Seq<Vec<(String, Real)>>,
    name: Seq<char>,
) -> Seq<Real>
    decreases virtual_masters.len(),
{
    if virtual_masters.len() == 0 {
        seq![]
    } else {
        all_virtual_values(virtual_masters.drop_last(), name) + virtual_values(
            virtual_masters.last()@,
            name,
        )
    }
}

/// Where the masters of a font are on an axis, and then its virtual masters.
pub open spec fn axis_values(font: Font, idx: int) -> Seq<Real> {
    font.masters@.map_values(|m: FontMaster| m.axes_values@[idx]) + all_virtual_values(
        font.virtual_masters@,
        font.axes@[idx].name@,
    )
}

/// The mapping of an axis, if it has one.
pub open spec fn mapping_of(font: Font, idx: int) -> Option<Seq<(Real, Real)>> {
    match lookup::named(font.axis_mappings@, font.axes@[idx].name@) {
        Some(m) => Some(m@),
        None => None,
    }
}

/// Whether a master has a value for every axis.
pub open spec fn is_consistent(font: Font, master: FontMaster) -> bool {
    font.axes@.len() == master.axes_values@.len()
}

/// The axes of a source that are wanted, of the first `n`.
pub open spec fn wanted_axes(font: Font, all: Seq<Axis>, n: int) -> Seq<usize>
    decreases n,
{
    if n <= 0 {
        seq![]
    } else {
        let rest = wanted_axes(font, all, n - 1);
        if is_wanted(all[n - 1], bent(mapping_of(font, n - 1)) is None, font.declares_axes) {
            rest.push((n - 1) as usize)
        } else {
            rest
        }
    }
}

/// `all` is what the axes of a source may become, wanted or not.
pub open spec fn axes_become<
    P: Fn(&Vec<(Real, Real)>, Real) -> Real,
    A: Fn(&Vec<(Real, Real)>, usize) -> Option<String>,
>(piecewise: P, refuse: A, font: Font, all: Seq<Axis>) -> bool {
    &&& all.len() <= font.axes@.len()
    &&& forall|i: int|
        0 <= i < all.len() ==> axis_becomes(
            piecewise,
            refuse,
            mapping_of(font, i),
            axis_values(font, i),
            font.default_master_idx as int,
            font.axes@[i],
            Ok(#[trigger] all[i]),
        )
}

/// Master `m` is the first without a value for every axis.
pub open spec fn is_first_inconsistent(font: Font, m: int) -> bool {
    &&& 0 <= m < font.masters@.len()
    &&& !is_consistent(font, font.masters@[m])
    &&& forall|i: int| 0 <= i < m ==> is_consistent(font, #[trigger] font.masters@[i])
}

/// `e` is why the axes of a source may not be had: the first master without a
/// value for every axis, or the first axis that is in order no longer.
pub open spec fn axes_fail_with<
    P: Fn(&Vec<(Real, Real)>, Real) -> Real,
    A: Fn(&Vec<(Real, Real)>, usize) -> Option<String>,
>(piecewise: P, refuse: A, font: Font, all: Seq<Axis>, e: AxisError) -> bool {
    match e {
        AxisError::InconsistentAxisDefinitions { axes, axis_values } => {
            &&& glyphs_source::axis_views(axes@) == glyphs_source::axis_views(font.axes@)
            &&& exists|m: int| #[trigger]
                is_first_inconsistent(font, m) && axis_values@ == font.masters@[m].axes_values@
        },
        _ => {
            &&& forall|i: int|
                0 <= i < font.masters@.len() ==> is_consistent(font, #[trigger] font.masters@[i])
            &&& all.len() < font.axes@.len()
            &&& axes_become(piecewise, refuse, font, all)
            &&& axis_becomes(
                piecewise,
                refuse,
                mapping_of(font, all.len() as int),
                axis_values(font, all.len() as int),
                font.default_master_idx as int,
                font.axes@[all.len() as int],
                Err(e),
            )
        },
    }
}

fn copied_axes(axes: &Vec<glyphs_source::Axis>) -> (r: Vec<glyphs_source::Axis>)
    ensures
        glyphs_source::axis_views(r@) == glyphs_source::axis_views(axes@),
{
    let mut r: Vec<glyphs_source::Axis> = Vec::new();
    let mut i: usize = 0;
    while i < axes.len()
        invariant
            i <= axes@.len(),
            glyphs_source::axis_views(r@) =~= glyphs_source::axis_views(axes@).take(i as int),
        decreases axes.len() - i,
    {
        let ghost was = r@;
        r.push(axes[i].clone());
        assert(glyphs_source::axis_views(r@) =~= glyphs_source::axis_views(was).push(
            axes@[i as int]@,
        ));
        i = i + 1;
    }
    assert(glyphs_source::axis_views(r@) =~= glyphs_source::axis_views(axes@));
    r
}

fn values_on(font: &Font, idx: usize) -> (r: Vec<Real>)
    requires
        idx < font.axes@.len(),
        forall|i: int|
            0 <= i < font.masters@.len() ==> is_consistent(*font, #[trigger] font.masters@[i]),
    ensures
        r@ == axis_values(*font, idx as int),
{
    let name: &String = &font.axes[idx].name;
    let ghost first = font.masters@.map_values(|m: FontMaster| m.axes_values@[idx as int]);
    let mut r: Vec<Real> = Vec::new();
    let mut i: usize = 0;
    while i < font.masters.len()
        invariant
            i <= font.masters@.len(),
            idx < font.axes@.len(),
            forall|i: int|
                0 <= i < font.masters@.len() ==> is_consistent(*font, #[trigger] font.masters@[i]),
            first == font.masters@.map_values(|m: FontMaster| m.axes_values@[idx as int]),
            r@ =~= first.take(i as int),
        decreases font.masters.len() - i,
    {
        assert(is_consistent(*font, font.masters@[i as int]));
        r.push(font.masters[i].axes_values[idx]);
        i = i + 1;
    }
    let mut v: usize = 0;
    assert(r@ =~= first + all_virtual_values(font.virtual_masters@.take(0), name@));
    while v < font.virtual_masters.len()
        invariant
            v <= font.virtual_masters@.len(),
            r@ == first + all_virtual_values(font.virtual_masters@.take(v as int), name@),
        decreases font.virtual_masters.len() - v,
    {
        assert(font.virtual_masters@.take(v + 1).drop_last() =~= font.virtual_masters@.take(
            v as int,
        ));
        let virtual_master: &Vec<(String, Real)> = &font.virtual_masters[v];
        let ghost before = r@;
        let mut k: usize = 0;
        assert(r@ =~= before + virtual_values(virtual_master@.take(0), name@));
        while k < virtual_master.len()
            invariant
                k <= virtual_master@.len(),
                r@ == before + virtual_values(virtual_master@.take(k as int), name@),
            decreases virtual_master.len() - k,
        {
            assert(virtual_master@.take(k + 1).drop_last() =~= virtual_master@.take(k as int));
            let ghost was = r@;
            if virtual_master[k].0 == *name {
                r.push(virtual_master[k].1);
                assert(r@ =~= before + virtual_values(virtual_master@.take(k + 1), name@));
            }
            k = k + 1;
        }
        assert(virtual_master@.take(k as int) =~= virtual_master@);
        assert(r@ =~= first + all_virtual_values(font.virtual_masters@.take(v + 1), name@));
        v = v + 1;
    }
    assert(font.virtual_masters@.take(v as int) =~= font.virtual_masters@);
    r
}

/// The axes of a source that are axes of the font, and the index each had in
/// the source.
///
/// The axes are read off every master, whether they end up reaching it or not.
pub fn ir_axes<
    P: Fn(&Vec<(Real, Real)>, Real) -> Real,
    A: Fn(&Vec<(Real, Real)>, usize) -> Option<String>,
>(font: &Font, piecewise: &P, refuse: &A) -> (r: Result<(Vec<Axis>, Vec<usize>), AxisError>)
    requires
        font.default_master_idx < font.masters@.len(),
        is_piecewise(*piecewise),
        forall|v: Vec<(Real, Real)>, at: usize| call_requires(*refuse, (&v, at)),
    ensures
        match r {
            Ok((axes, axis_indices)) => exists|all: Seq<Axis>| #[trigger]
                axes_become(*piecewise, *refuse, *font, all) && are_axes_of(
                    *font,
                    all,
                    axes@,
                    axis_indices@,
                ),
            Err(e) => exists|all: Seq<Axis>| #[trigger]
                axes_fail_with(*piecewise, *refuse, *font, all, e),
        },
{
    let mut m: usize = 0;
    while m < font.masters.len()
        invariant
            m <= font.masters@.len(),
            forall|i: int| 0 <= i < m ==> is_consistent(*font, #[trigger] font.masters@[i]),
        decreases font.masters.len() - m,
    {
        if font.axes.len() != font.masters[m].axes_values.len() {
            let e = AxisError::InconsistentAxisDefinitions {
                axes: copied_axes(&font.axes),
                axis_values: lookup::copied(&font.masters[m].axes_values),
            };
            assert(is_first_inconsistent(*font, m as int));
            assert(axes_fail_with(*piecewise, *refuse, *font, seq![], e));
            return Err(e);
        }
        m = m + 1;
    }
    let ghost mut all: Seq<Axis> = seq![];
    let mut axes: Vec<Axis> = Vec::new();
    let mut axis_indices: Vec<usize> = Vec::new();
    let mut idx: usize = 0;
    while idx < font.axes.len()
        invariant
            idx <= font.axes@.len(),
            font.default_master_idx < font.masters@.len(),
            is_piecewise(*piecewise),
            forall|v: Vec<(Real, Real)>, at: usize| call_requires(*refuse, (&v, at)),
            forall|i: int|
                0 <= i < font.masters@.len() ==> is_consistent(*font, #[trigger] font.masters@[i]),
            all.len() == idx,
            axes_become(*piecewise, *refuse, *font, all),
            axis_indices@ == wanted_axes(*font, all, idx as int),
            axes@ == axis_indices@.map_values(|i: usize| all[i as int]),
            forall|i: int| 0 <= i < axis_indices@.len() ==> (#[trigger] axis_indices@[i]) < idx,
        decreases font.axes.len() - idx,
    {
        let values: Vec<Real> = values_on(font, idx);
        let source: &glyphs_source::Axis = &font.axes[idx];
        let mapping: Option<&Vec<(Real, Real)>> = match lookup::find_named(
            &font.axis_mappings,
            &source.name,
        ) {
            Some(k) => Some(&font.axis_mappings[k].1),
            None => None,
        };
        let is_identity_map: bool = match mapping {
            Some(m) => bends_nothing(m),
            None => true,
        };
        match to_ir_axis(mapping, &values, font.default_master_idx, source, piecewise, refuse) {
            Err(e) => {
                assert(axes_fail_with(*piecewise, *refuse, *font, all, e));
                return Err(e);
            },
            Ok(axis) => {
                let ghost before = all;
                proof {
                    all = all.push(axis);
                    assert forall|i: int| 0 <= i < all.len() implies axis_becomes(
                        *piecewise,
                        *refuse,
                        mapping_of(*font, i),
                        axis_values(*font, i),
                        font.default_master_idx as int,
                        font.axes@[i],
                        Ok(#[trigger] all[i]),
                    ) by {
                        if i < idx {
                            assert(all[i] == before[i]);
                        }
                    }
                    lemma_wanted_axes(*font, before, all, idx as int);
                }
                let ghost old_axes = axes@;
                let ghost old_indices = axis_indices@;
                if wanted_in_designspace(&axis, is_identity_map, font.declares_axes) {
                    axes.push(axis);
                    axis_indices.push(idx);
                }
                assert(axes@ =~= axis_indices@.map_values(|i: usize| all[i as int])) by {
                    assert forall|i: int| 0 <= i < old_indices.len() implies #[trigger] old_axes[i]
                        == all[old_indices[i] as int] by {
                        assert(old_axes[i] == before[old_indices[i] as int]);
                    }
                }
            },
        }
        idx = idx + 1;
    }
    assert(are_axes_of(*font, all, axes@, axis_indices@));
    Ok((axes, axis_indices))
}

/// `axes` are those of a source that are wanted, and `axis_indices` where they
/// stood in it.
pub open spec fn are_axes_of(
    font: Font,
    all: Seq<Axis>,
    axes: Seq<Axis>,
    axis_indices: Seq<usize>,
) -> bool {
    &&& all.len() == font.axes@.len()
    &&& forall|i: int|
        0 <= i < font.masters@.len() ==> is_consistent(font, #[trigger] font.masters@[i])
    &&& axis_indices == wanted_axes(font, all, all.len() as int)
    &&& axes == axis_indices.map_values(|i: usize| all[i as int])
}

proof fn lemma_wanted_axes(font: Font, a: Seq<Axis>, b: Seq<Axis>, n: int)
    requires
        0 <= n <= a.len(),
        n <= b.len(),
        forall|i: int| 0 <= i < n ==> a[i] == b[i],
    ensures
        wanted_axes(font, a, n) == wanted_axes(font, b, n),
    decreases n,
{
    if n > 0 {
        lemma_wanted_axes(font, a, b, n - 1);
    }
}

/// Whether a position is within the range of every axis, as far as it says
/// anything of them.
pub open spec fn is_in_range<F: Fn(&CoordConverter, Real) -> Real>(
    to_user: F,
    axes: Seq<Axis>,
    axis_indices: Seq<usize>,
    values: Seq<Real>,
) -> bool {
    forall|k: int|
        0 <= k < axes.len() && k < axis_indices.len() ==> is_on_axis(
            to_user,
            #[trigger] axes[k],
            axis_indices[k] as int,
            values,
        )
}

pub open spec fn is_on_axis<F: Fn(&CoordConverter, Real) -> Real>(
    to_user: F,
    axis: Axis,
    idx: int,
    values: Seq<Real>,
) -> bool {
    0 <= idx < values.len() ==> axis.min <= pin::converted(to_user, axis.converter, values[idx])
        <= axis.max
}

/// Whether a position is at the default of every axis.
pub open spec fn is_at_default<F: Fn(&CoordConverter, Real) -> Real>(
    to_design: F,
    axes: Seq<Axis>,
    axis_indices: Seq<usize>,
    values: Seq<Real>,
) -> bool {
    forall|k: int|
        0 <= k < axes.len() && k < axis_indices.len() ==> is_default_of(
            to_design,
            #[trigger] axes[k],
            axis_indices[k] as int,
            values,
        )
}

pub open spec fn is_default_of<F: Fn(&CoordConverter, Real) -> Real>(
    to_design: F,
    axis: Axis,
    idx: int,
    values: Seq<Real>,
) -> bool {
    0 <= idx < values.len() && values[idx] == pin::converted(
        to_design,
        axis.converter,
        axis.default,
    )
}

/// Whether the master with an id sits outside the axes.
pub open spec fn is_dropped<F: Fn(&CoordConverter, Real) -> Real>(
    to_user: F,
    axes: Seq<Axis>,
    axis_indices: Seq<usize>,
    masters: Seq<FontMaster>,
    id: Seq<char>,
) -> bool {
    exists|i: int|
        0 <= i < masters.len() && (#[trigger] masters[i]).id@ == id && !is_in_range(
            to_user,
            axes,
            axis_indices,
            masters[i].axes_values@,
        )
}

/// Whether any master sits outside the axes.
pub open spec fn drops_any<F: Fn(&CoordConverter, Real) -> Real>(
    to_user: F,
    axes: Seq<Axis>,
    axis_indices: Seq<usize>,
    masters: Seq<FontMaster>,
) -> bool {
    exists|i: int|
        0 <= i < masters.len() && !is_in_range(
            to_user,
            axes,
            axis_indices,
            (#[trigger] masters[i]).axes_values@,
        )
}

/// The masters that stay.
pub open spec fn surviving_masters<F: Fn(&CoordConverter, Real) -> Real>(
    to_user: F,
    axes: Seq<Axis>,
    axis_indices: Seq<usize>,
    masters: Seq<FontMaster>,
) -> Seq<FontMaster> {
    lookup::flagged(
        masters,
        masters.map_values(
            |m: FontMaster| !is_dropped(to_user, axes, axis_indices, masters, m.id@),
        ),
    )
}

/// The instances that stay: those within the axes, and whole variable fonts.
pub open spec fn surviving_instances<F: Fn(&CoordConverter, Real) -> Real>(
    to_user: F,
    axes: Seq<Axis>,
    axis_indices: Seq<usize>,
    instances: Seq<Instance>,
) -> Seq<Instance> {
    lookup::flagged(
        instances,
        instances.map_values(
            |i: Instance|
                i.type_ != InstanceType::Single || is_in_range(
                    to_user,
                    axes,
                    axis_indices,
                    i.axes_values@,
                ),
        ),
    )
}

/// The layers of a glyph that stay.
pub open spec fn surviving_layers<F: Fn(&CoordConverter, Real) -> Real>(
    to_user: F,
    axes: Seq<Axis>,
    axis_indices: Seq<usize>,
    masters: Seq<FontMaster>,
    layers: Seq<Layer>,
) -> Seq<Layer> {
    lookup::flagged(
        layers,
        layers.map_values(
            |l: Layer| !is_dropped(to_user, axes, axis_indices, masters, l.master()),
        ),
    )
}

/// Whether `idx` is the first of `flags` that is set.
pub open spec fn is_first_set(flags: Seq<bool>, idx: int) -> bool {
    0 <= idx < flags.len() && flags[idx] && forall|k: int| 0 <= k < idx ==> !#[trigger] flags[k]
}

/// What remains of a source once the masters outside its axes are dropped, and
/// what goes with them.
pub open spec fn is_remainder<F: Fn(&CoordConverter, Real) -> Real>(
    to_user: F,
    axes: Seq<Axis>,
    axis_indices: Seq<usize>,
    font: Font,
    rest: Font,
) -> bool {
    &&& rest == (Font {
        masters: rest.masters,
        instances: rest.instances,
        glyphs: rest.glyphs,
        default_master_idx: rest.default_master_idx,
        ..font
    })
    &&& rest.masters@ == surviving_masters(to_user, axes, axis_indices, font.masters@)
    &&& rest.instances@ == surviving_instances(to_user, axes, axis_indices, font.instances@)
    &&& rest.glyphs@.len() == font.glyphs@.len()
    &&& forall|i: int|
        0 <= i < rest.glyphs@.len() ==> is_glyph_remainder(
            to_user,
            axes,
            axis_indices,
            font.masters@,
            font.glyphs@[i],
            #[trigger] rest.glyphs@[i],
        )
}

pub open spec fn is_glyph_remainder<F: Fn(&CoordConverter, Real) -> Real>(
    to_user: F,
    axes: Seq<Axis>,
    axis_indices: Seq<usize>,
    masters: Seq<FontMaster>,
    glyph: glyphs_source::Glyph,
    rest: glyphs_source::Glyph,
) -> bool {
    &&& rest == (glyphs_source::Glyph { layers: rest.layers, ..glyph })
    &&& rest.layers@ == surviving_layers(to_user, axes, axis_indices, masters, glyph.layers@)
}

/// Which of the masters that stay may become the default: the one that was, or
/// where that was dropped, any at the default of every axis.
pub open spec fn default_flags<
    F: Fn(&CoordConverter, Real) -> Real,
    G: Fn(&CoordConverter, Real) -> Real,
>(
    to_user: F,
    to_design: G,
    axes: Seq<Axis>,
    axis_indices: Seq<usize>,
    font: Font,
) -> Seq<bool> {
    let was = font.masters@[font.default_master_idx as int].id@;
    surviving_masters(to_user, axes, axis_indices, font.masters@).map_values(
        |m: FontMaster|
            if is_dropped(to_user, axes, axis_indices, font.masters@, was) {
                is_at_default(to_design, axes, axis_indices, m.axes_values@)
            } else {
                m.id@ == was
            },
    )
}

fn in_range<F: Fn(&CoordConverter, Real) -> Real>(
    axes: &Vec<Axis>,
    axis_indices: &Vec<usize>,
    values: &Vec<Real>,
    to_user: &F,
) -> (r: bool)
    requires
        pin::is_conversion(*to_user),
    ensures
        r == is_in_range(*to_user, axes@, axis_indices@, values@),
{
    let mut k: usize = 0;
    while k < axes.len() && k < axis_indices.len()
        invariant
            k <= axes@.len(),
            k <= axis_indices@.len(),
            pin::is_conversion(*to_user),
            forall|j: int|
                0 <= j < k ==> is_on_axis(
                    *to_user,
                    #[trigger] axes@[j],
                    axis_indices@[j] as int,
                    values@,
                ),
        decreases axes.len() - k,
    {
        let idx: usize = axis_indices[k];
        if idx < values.len() {
            let user: Real = to_user(&axes[k].converter, values[idx]);
            assert(pin::converts_to(
                *to_user,
                axes@[k as int].converter,
                values@[idx as int],
                user,
            ));
            if !(axes[k].min <= user && user <= axes[k].max) {
                assert(!is_on_axis(*to_user, axes@[k as int], idx as int, values@));
                return false;
            }
        }
        k = k + 1;
    }
    true
}

fn at_default<G: Fn(&CoordConverter, Real) -> Real>(
    axes: &Vec<Axis>,
    axis_indices: &Vec<usize>,
    values: &Vec<Real>,
    to_design: &G,
) -> (r: bool)
    requires
        pin::is_conversion(*to_design),
    ensures
        r == is_at_default(*to_design, axes@, axis_indices@, values@),
{
    let mut k: usize = 0;
    while k < axes.len() && k < axis_indices.len()
        invariant
            k <= axes@.len(),
            k <= axis_indices@.len(),
            pin::is_conversion(*to_design),
            forall|j: int|
                0 <= j < k ==> is_default_of(
                    *to_design,
                    #[trigger] axes@[j],
                    axis_indices@[j] as int,
                    values@,
                ),
        decreases axes.len() - k,
    {
        let idx: usize = axis_indices[k];
        if idx >= values.len() {
            assert(!is_default_of(*to_design, axes@[k as int], idx as int, values@));
            return false;
        }
        let there: Real = to_design(&axes[k].converter, axes[k].default);
        assert(pin::converts_to(
            *to_design,
            axes@[k as int].converter,
            axes@[k as int].default,
            there,
        ));
        if values[idx] != there {
            assert(!is_default_of(*to_design, axes@[k as int], idx as int, values@));
            return false;
        }
        k = k + 1;
    }
    true
}

fn drops<F: Fn(&CoordConverter, Real) -> Real>(
    axes: &Vec<Axis>,
    axis_indices: &Vec<usize>,
    masters: &Vec<FontMaster>,
    id: &String,
    to_user: &F,
) -> (r: bool)
    requires
        pin::is_conversion(*to_user),
    ensures
        r == is_dropped(*to_user, axes@, axis_indices@, masters@, id@),
{
    let mut i: usize = 0;
    while i < masters.len()
        invariant
            i <= masters@.len(),
            pin::is_conversion(*to_user),
            forall|k: int|
                0 <= k < i ==> (#[trigger] masters@[k]).id@ != id@ || is_in_range(
                    *to_user,
                    axes@,
                    axis_indices@,
                    masters@[k].axes_values@,
                ),
        decreases masters.len() - i,
    {
        if masters[i].id == *id && !in_range(
            axes,
            axis_indices,
            &masters[i].axes_values,
            to_user,
        ) {
            return true;
        }
        i = i + 1;
    }
    false
}

fn all_in_range<F: Fn(&CoordConverter, Real) -> Real>(
    axes: &Vec<Axis>,
    axis_indices: &Vec<usize>,
    masters: &Vec<FontMaster>,
    to_user: &F,
) -> (r: bool)
    requires
        pin::is_conversion(*to_user),
    ensures
        r == !drops_any(*to_user, axes@, axis_indices@, masters@),
{
    let mut i: usize = 0;
    while i < masters.len()
        invariant
            i <= masters@.len(),
            pin::is_conversion(*to_user),
            forall|k: int|
                0 <= k < i ==> is_in_range(
                    *to_user,
                    axes@,
                    axis_indices@,
                    (#[trigger] masters@[k]).axes_values@,
                ),
        decreases masters.len() - i,
    {
        if !in_range(axes, axis_indices, &masters[i].axes_values, to_user) {
            return false;
        }
        i = i + 1;
    }
    true
}

/// Drop the layers of masters outside the axes.
fn drop_layers<F: Fn(&CoordConverter, Real) -> Real>(
    axes: &Vec<Axis>,
    axis_indices: &Vec<usize>,
    masters: &Vec<FontMaster>,
    layers: Vec<Layer>,
    to_user: &F,
) -> (r: Vec<Layer>)
    requires
        pin::is_conversion(*to_user),
    ensures
        r@ == surviving_layers(*to_user, axes@, axis_indices@, masters@, layers@),
{
    let ghost want = layers@.map_values(
        |l: Layer| !is_dropped(*to_user, axes@, axis_indices@, masters@, l.master()),
    );
    let mut flags: Vec<bool> = Vec::new();
    let mut i: usize = 0;
    while i < layers.len()
        invariant
            i <= layers@.len(),
            pin::is_conversion(*to_user),
            want == layers@.map_values(
                |l: Layer| !is_dropped(*to_user, axes@, axis_indices@, masters@, l.master()),
            ),
            flags@ =~= want.take(i as int),
        decreases layers.len() - i,
    {
        flags.push(!drops(axes, axis_indices, masters, layers[i].master_id(), to_user));
        i = i + 1;
    }
    assert(flags@ =~= want);
    lookup::keep_flagged(layers, &flags)
}

/// Drop the masters that sit outside the axes' ranges in user space, and what
/// goes with them.
///
/// A mapped axis takes its range from the mapping, so a master can sit where
/// the mapping never reaches. The instances beside it cannot be built by
/// anything, so they go too. If the default master went, the survivor at the
/// default location takes over.
pub fn drop_sources_outside_axes<
    F: Fn(&CoordConverter, Real) -> Real,
    G: Fn(&CoordConverter, Real) -> Real,
>(
    font: Font,
    axes: &Vec<Axis>,
    axis_indices: &Vec<usize>,
    to_user: &F,
    to_design: &G,
) -> (r: Result<Font, AxisError>)
    requires
        font.default_master_idx < font.masters@.len(),
        pin::is_conversion(*to_user),
        pin::is_conversion(*to_design),
    ensures
        if drops_any(*to_user, axes@, axis_indices@, font.masters@) {
            match r {
                Ok(rest) => {
                    &&& is_remainder(*to_user, axes@, axis_indices@, font, rest)
                    &&& is_first_set(
                        default_flags(*to_user, *to_design, axes@, axis_indices@, font),
                        rest.default_master_idx as int,
                    )
                },
                Err(e) => {
                    &&& e == AxisError::NoDefaultMaster
                    &&& forall|k: int|
                        0 <= k < default_flags(
                            *to_user,
                            *to_design,
                            axes@,
                            axis_indices@,
                            font,
                        ).len() ==> !#[trigger] default_flags(
                            *to_user,
                            *to_design,
                            axes@,
                            axis_indices@,
                            font,
                        )[k]
                },
            }
        } else {
            r == Ok::<Font, AxisError>(font)
        },
{
    if all_in_range(axes, axis_indices, &font.masters, to_user) {
        return Ok(font);
    }
    let ghost whole = font;
    let ghost before = font.masters@;
    let mut rest: Font = font;
    let default_id: String = rest.masters[rest.default_master_idx].id.clone();
    let default_dropped: bool = drops(axes, axis_indices, &rest.masters, &default_id, to_user);

    let ghost master_flags = before.map_values(
        |m: FontMaster| !is_dropped(*to_user, axes@, axis_indices@, before, m.id@),
    );
    let mut flags: Vec<bool> = Vec::new();
    let mut i: usize = 0;
    while i < rest.masters.len()
        invariant
            i <= rest.masters@.len(),
            rest == whole,
            before == rest.masters@,
            pin::is_conversion(*to_user),
            master_flags == before.map_values(
                |m: FontMaster| !is_dropped(*to_user, axes@, axis_indices@, before, m.id@),
            ),
            flags@ =~= master_flags.take(i as int),
        decreases rest.masters.len() - i,
    {
        flags.push(!drops(axes, axis_indices, &rest.masters, &rest.masters[i].id, to_user));
        i = i + 1;
    }
    assert(flags@ =~= master_flags);

    let ghost instance_flags = rest.instances@.map_values(
        |i: Instance|
            i.type_ != InstanceType::Single || is_in_range(
                *to_user,
                axes@,
                axis_indices@,
                i.axes_values@,
            ),
    );
    let mut kept: Vec<bool> = Vec::new();
    let mut n: usize = 0;
    while n < rest.instances.len()
        invariant
            n <= rest.instances@.len(),
            rest == whole,
            pin::is_conversion(*to_user),
            instance_flags == rest.instances@.map_values(
                |i: Instance|
                    i.type_ != InstanceType::Single || is_in_range(
                        *to_user,
                        axes@,
                        axis_indices@,
                        i.axes_values@,
                    ),
            ),
            kept@ =~= instance_flags.take(n as int),
        decreases rest.instances.len() - n,
    {
        kept.push(
            rest.instances[n].type_ != InstanceType::Single || in_range(
                axes,
                axis_indices,
                &rest.instances[n].axes_values,
                to_user,
            ),
        );
        n = n + 1;
    }
    assert(kept@ =~= instance_flags);

    let ghost glyphs = rest.glyphs@;
    let mut g: usize = 0;
    while g < rest.glyphs.len()
        invariant
            g <= rest.glyphs@.len(),
            rest == (Font { glyphs: rest.glyphs, ..whole }),
            before == whole.masters@,
            rest.glyphs@.len() == glyphs.len(),
            pin::is_conversion(*to_user),
            forall|k: int|
                0 <= k < g ==> is_glyph_remainder(
                    *to_user,
                    axes@,
                    axis_indices@,
                    before,
                    glyphs[k],
                    #[trigger] rest.glyphs@[k],
                ),
            forall|k: int| g <= k < glyphs.len() ==> #[trigger] rest.glyphs@[k] == glyphs[k],
        decreases rest.glyphs.len() - g,
    {
        let mut layers: Vec<Layer> = Vec::new();
        let ghost was = rest.glyphs@;
        std::mem::swap(&mut layers, &mut rest.glyphs[g].layers);
        let left: Vec<Layer> = drop_layers(axes, axis_indices, &rest.masters, layers, to_user);
        rest.glyphs[g].layers = left;
        assert(forall|k: int| 0 <= k < glyphs.len() && k != g ==> #[trigger] rest.glyphs@[k] == was[k]);
        g = g + 1;
    }

    let mut masters: Vec<FontMaster> = Vec::new();
    std::mem::swap(&mut masters, &mut rest.masters);
    rest.masters = lookup::keep_flagged(masters, &flags);
    let mut instances: Vec<Instance> = Vec::new();
    std::mem::swap(&mut instances, &mut rest.instances);
    rest.instances = lookup::keep_flagged(instances, &kept);

    let ghost candidates = default_flags(*to_user, *to_design, axes@, axis_indices@, whole);
    let mut d: usize = 0;
    while d < rest.masters.len()
        invariant
            d <= rest.masters@.len(),
            pin::is_conversion(*to_user),
            pin::is_conversion(*to_design),
            whole == font,
            whole.default_master_idx < whole.masters@.len(),
            before == whole.masters@,
            drops_any(*to_user, axes@, axis_indices@, whole.masters@),
            default_id@ == whole.masters@[whole.default_master_idx as int].id@,
            default_dropped == is_dropped(*to_user, axes@, axis_indices@, before, default_id@),
            rest.masters@ == surviving_masters(*to_user, axes@, axis_indices@, whole.masters@),
            is_remainder(*to_user, axes@, axis_indices@, whole, rest),
            candidates == default_flags(*to_user, *to_design, axes@, axis_indices@, whole),
            forall|k: int| 0 <= k < d ==> !#[trigger] candidates[k],
        decreases rest.masters.len() - d,
    {
        let fits: bool = if default_dropped {
            at_default(axes, axis_indices, &rest.masters[d].axes_values, to_design)
        } else {
            rest.masters[d].id == default_id
        };
        assert(candidates[d as int] == fits);
        if fits {
            rest.default_master_idx = d;
            return Ok(rest);
        }
        d = d + 1;
    }
    Err(AxisError::NoDefaultMaster)
}

/// Read backwards, a mapping has each design position with the largest user
/// position that maps to it, and the design positions ascend.
pub proof fn law_the_largest_user_position_wins(
    mappings: Seq<(Real, Real)>,
    r: Seq<(Real, Real)>,
    k: int,
)
    requires
        is_reversal(mappings, r),
        0 <= k < mappings.len(),
        forall|j: int|
            0 <= j < mappings.len() && (#[trigger] mappings[j]).1 == mappings[k].1 ==> mappings[j].0
                <= mappings[k].0,
    ensures
        r.contains((mappings[k].1, mappings[k].0)),
        forall|i: int, j: int| 0 <= i < j < r.len() ==> r[i].0 < r[j].0,
        forall|i: int|
            0 <= i < r.len() ==> exists|j: int|
                0 <= j < mappings.len() && (#[trigger] mappings[j]).0 == (#[trigger] r[i]).1
                    && mappings[j].1 == r[i].0,
{
    assert(is_covered(mappings[k], r));
    let i = choose|i: int|
        0 <= i < r.len() && (#[trigger] r[i]).0 == mappings[k].1 && mappings[k].0 <= r[i].1;
    assert(is_read_off(mappings, r[i]));
    let j = choose|j: int| 0 <= j < mappings.len() && mappings[j] == (r[i].1, r[i].0);
    assert(mappings[j].1 == mappings[k].1);
    assert(r[i] == (mappings[k].1, mappings[k].0));
    assert forall|i: int| 0 <= i < r.len() implies exists|j: int|
        0 <= j < mappings.len() && (#[trigger] mappings[j]).0 == (#[trigger] r[i]).1 && mappings[j].1
            == r[i].0 by {
        assert(is_read_off(mappings, r[i]));
        let j = choose|j: int| 0 <= j < mappings.len() && mappings[j] == (r[i].1, r[i].0);
        assert(mappings[j].0 == r[i].1);
    }
}

/// The least of some numbers is one of them, and none is less; the greatest is
/// one of them, and none is greater.
pub proof fn law_the_ends_of_a_range(values: Seq<Real>, i: int)
    requires
        0 <= i < values.len(),
    ensures
        values.contains(least(values)),
        values.contains(greatest(values)),
        least(values) <= values[i],
        values[i] <= greatest(values),
    decreases values.len(),
{
    if values.len() == 1 {
        assert(values[0] == least(values));
    } else {
        let rest = values.drop_last();
        if i < rest.len() {
            law_the_ends_of_a_range(rest, i);
            assert(rest[i] == values[i]);
        } else {
            law_the_ends_of_a_range(rest, 0);
        }
        let a = choose|a: int| 0 <= a < rest.len() && rest[a] == least(rest);
        let b = choose|b: int| 0 <= b < rest.len() && rest[b] == greatest(rest);
        assert(values[a] == rest[a]);
        assert(values[b] == rest[b]);
        assert(values[values.len() - 1] == values.last());
    }
}

/// An axis without a mapping that bends runs from the least to the greatest
/// position of its masters, virtual ones too, and its default is where the
/// default master is. Its names, its tag and whether it is hidden are those of
/// the source.
pub proof fn law_unmapped_axes_have_the_range_of_their_masters<
    P: Fn(&Vec<(Real, Real)>, Real) -> Real,
    A: Fn(&Vec<(Real, Real)>, usize) -> Option<String>,
>(
    piecewise: P,
    refuse: A,
    mapping: Option<Seq<(Real, Real)>>,
    values: Seq<Real>,
    default_idx: int,
    source: glyphs_source::Axis,
    axis: Axis,
    i: int,
)
    requires
        axis_becomes(piecewise, refuse, mapping, values, default_idx, source, Ok(axis)),
        0 <= default_idx < values.len(),
        0 <= i < values.len(),
        mapping matches Some(m) ==> forall|k: int|
            0 <= k < m.len() ==> (#[trigger] m[k]).0 == m[k].1,
    ensures
        axis.min <= values[i] && values[i] <= axis.max,
        values.contains(axis.min),
        values.contains(axis.max),
        axis.default == values[default_idx],
        axis.converter == (CoordConverter::Unmapped {
            min: axis.min,
            default: axis.default,
            max: axis.max,
        }),
        axis.name@ == source.name@,
        axis.ui_label_name@ == source.name@,
        axis.hidden == (source.hidden == Some(true)),
        coords::tag_spelled(source.tag@) == Ok::<Tag, TagProblem>(axis.tag),
{
    law_the_ends_of_a_range(values, i);
    if let Some(m) = mapping {
        assert(is_identity(m));
    }
    assert(bent(mapping) is None);
}

/// An axis with a mapping that bends, and with masters at more than one
/// position, runs from the least to the greatest user position of the mapping,
/// wherever its masters are. Its default is one of those positions.
pub proof fn law_mapped_axes_have_the_range_of_their_mapping<
    P: Fn(&Vec<(Real, Real)>, Real) -> Real,
    A: Fn(&Vec<(Real, Real)>, usize) -> Option<String>,
>(
    piecewise: P,
    refuse: A,
    m: Seq<(Real, Real)>,
    values: Seq<Real>,
    default_idx: int,
    source: glyphs_source::Axis,
    axis: Axis,
    a: int,
    b: int,
    k: int,
)
    requires
        axis_becomes(piecewise, refuse, Some(m), values, default_idx, source, Ok(axis)),
        0 <= default_idx < values.len(),
        0 <= a < values.len() && 0 <= b < values.len() && values[a] != values[b],
        0 <= k < m.len(),
        exists|j: int| 0 <= j < m.len() && (#[trigger] m[j]).0 != m[j].1,
    ensures
        axis.min <= m[k].0 && m[k].0 <= axis.max,
        exists|j: int| 0 <= j < m.len() && (#[trigger] m[j]).0 == axis.min,
        exists|j: int| 0 <= j < m.len() && (#[trigger] m[j]).0 == axis.max,
        axis.min <= axis.default && axis.default <= axis.max,
        axis.converter matches CoordConverter::Mapped { mappings, default_idx } && mappings@ == m
            && default_idx < m.len() && m[default_idx as int].0 == axis.default && forall|j: int|
            0 <= j < default_idx ==> (#[trigger] m[j]).0 != axis.default,
        axis.name@ == source.name@,
        coords::tag_spelled(source.tag@) == Ok::<Tag, TagProblem>(axis.tag),
{
    law_the_ends_of_a_range(values, a);
    law_the_ends_of_a_range(values, b);
    assert(least(values) != greatest(values));
    let u = users(m);
    assert(u[k] == m[k].0);
    law_the_ends_of_a_range(u, k);
    let lo = choose|lo: int| 0 <= lo < u.len() && u[lo] == least(u);
    let hi = choose|hi: int| 0 <= hi < u.len() && u[hi] == greatest(u);
    assert(m[lo].0 == least(u));
    assert(m[hi].0 == greatest(u));
    assert(!is_identity(m));
    assert(bent(Some(m)) == Some(m));
    lemma_first_with_user_is_the_first(m, axis.default);
}

proof fn lemma_first_with_user_is_the_first(m: Seq<(Real, Real)>, user: Real)
    ensures
        match first_with_user(m, user) {
            Some(k) => 0 <= k < m.len() && m[k].0 == user && forall|i: int|
                0 <= i < k ==> (#[trigger] m[i]).0 != user,
            None => forall|i: int| 0 <= i < m.len() ==> (#[trigger] m[i]).0 != user,
        },
    decreases m.len(),
{
    if m.len() > 0 {
        let rest = m.drop_last();
        lemma_first_with_user_is_the_first(rest, user);
        assert forall|i: int| 0 <= i < rest.len() implies rest[i] == #[trigger] m[i] by {}
    }
}

/// The default of a mapped axis is where the default master is, read backwards
/// through the mapping, or the nearer end of the axis if that is beyond it.
pub proof fn law_the_default_is_read_backwards<
    P: Fn(&Vec<(Real, Real)>, Real) -> Real,
    A: Fn(&Vec<(Real, Real)>, usize) -> Option<String>,
>(
    piecewise: P,
    refuse: A,
    m: Seq<(Real, Real)>,
    values: Seq<Real>,
    default_idx: int,
    source: glyphs_source::Axis,
    axis: Axis,
)
    requires
        axis_becomes(piecewise, refuse, Some(m), values, default_idx, source, Ok(axis)),
        axis.converter is Mapped,
    ensures
        ({
            let at = read_at(piecewise, reversal(m), values[default_idx]);
            &&& axis.min <= at && at <= axis.max ==> axis.default == at
            &&& at < axis.min ==> axis.default == axis.min
            &&& axis.max < at && axis.min <= at ==> axis.default == axis.max
        }),
{
}

/// Axes do nothing at 400 if they are for weight, at 100 if they are for width,
/// and at zero if they are for anything else.
pub proof fn law_axes_do_nothing_at_their_usual_positions(tag: Tag)
    ensures
        tag.0 == 0x77676874 ==> idle_at(tag) == 0x4079000000000000,
        tag.0 == 0x77647468 ==> idle_at(tag) == 0x4059000000000000,
        tag.0 != 0x77676874 && tag.0 != 0x77647468 ==> idle_at(tag) == 0,
{
}

/// An axis is left out only if it is a single position, at which it does
/// nothing, its mapping bends nothing and the source does not name its axes.
pub proof fn law_only_axes_that_say_nothing_are_left_out(
    axis: Axis,
    is_identity_map: bool,
    declares_axes: bool,
)
    ensures
        declares_axes ==> is_wanted(axis, is_identity_map, declares_axes),
        !is_identity_map ==> is_wanted(axis, is_identity_map, declares_axes),
        axis.min < axis.max ==> is_wanted(axis, is_identity_map, declares_axes),
        axis.min != idle_at(axis.tag) ==> is_wanted(axis, is_identity_map, declares_axes),
        !declares_axes && is_identity_map && axis.min == axis.max && axis.min == idle_at(axis.tag)
            ==> !is_wanted(axis, is_identity_map, declares_axes),
{
}

/// Where an axis is read off: the value of each master at its index, in order,
/// and behind them what virtual masters say under its name.
pub proof fn law_axes_are_read_off_every_master(font: Font, idx: int, m: int)
    requires
        0 <= idx < font.axes@.len(),
        0 <= m < font.masters@.len(),
    ensures
        axis_values(font, idx).len() >= font.masters@.len(),
        axis_values(font, idx)[m] == font.masters@[m].axes_values@[idx],
        axis_values(font, idx).skip(font.masters@.len() as int) == all_virtual_values(
            font.virtual_masters@,
            font.axes@[idx].name@,
        ),
{
    assert(axis_values(font, idx).skip(font.masters@.len() as int) =~= all_virtual_values(
        font.virtual_masters@,
        font.axes@[idx].name@,
    ));
}

/// Virtual masters are read one after the other, and only what they say under
/// the name of the axis counts.
pub proof fn law_virtual_masters_are_read_by_name(
    virtual_masters: Seq<Vec<(String, Real)>>,
    virtual_master: Vec<(String, Real)>,
    entries: Seq<(String, Real)>,
    entry: (String, Real),
    name: Seq<char>,
)
    ensures
        all_virtual_values(Seq::empty(), name).len() == 0,
        all_virtual_values(virtual_masters.push(virtual_master), name) == all_virtual_values(
            virtual_masters,
            name,
        ) + virtual_values(virtual_master@, name),
        virtual_values(Seq::empty(), name).len() == 0,
        virtual_values(entries.push(entry), name) == if entry.0@ == name {
            virtual_values(entries, name).push(entry.1)
        } else {
            virtual_values(entries, name)
        },
{
    assert(virtual_masters.push(virtual_master).drop_last() =~= virtual_masters);
    assert(entries.push(entry).drop_last() =~= entries);
}

/// The axes of a font are those of its source that are wanted, in order, each
/// with the index that it had.
pub proof fn law_axes_keep_their_order(
    font: Font,
    all: Seq<Axis>,
    axes: Seq<Axis>,
    axis_indices: Seq<usize>,
    k: int,
)
    requires
        are_axes_of(font, all, axes, axis_indices),
        all.len() <= usize::MAX,
        0 <= k < axis_indices.len(),
    ensures
        axes.len() == axis_indices.len(),
        axis_indices[k] < all.len(),
        axes[k] == all[axis_indices[k] as int],
        forall|j: int| 0 <= j < k ==> axis_indices[j] < axis_indices[k],
{
    lemma_wanted_axes_ascend(font, all, all.len() as int);
}

proof fn lemma_wanted_axes_ascend(font: Font, all: Seq<Axis>, n: int)
    requires
        0 <= n <= all.len(),
        all.len() <= usize::MAX,
    ensures
        forall|i: int|
            0 <= i < wanted_axes(font, all, n).len() ==> (#[trigger] wanted_axes(font, all, n)[i])
                < n,
        forall|i: int, j: int|
            0 <= i < j < wanted_axes(font, all, n).len() ==> wanted_axes(font, all, n)[i]
                < wanted_axes(font, all, n)[j],
    decreases n,
{
    if n > 0 {
        lemma_wanted_axes_ascend(font, all, n - 1);
        let rest = wanted_axes(font, all, n - 1);
        let now = wanted_axes(font, all, n);
        assert(now == rest || now == rest.push((n - 1) as usize));
        assert forall|i: int| 0 <= i < now.len() implies (#[trigger] now[i]) < n by {
            if i < rest.len() {
                assert(now[i] == rest[i]);
            }
        }
        assert forall|i: int, j: int| 0 <= i < j < now.len() implies now[i] < now[j] by {
            assert(now[i] == rest[i]);
            if j < rest.len() {
                assert(now[j] == rest[j]);
            }
        }
    }
}

/// Whether the next axis is among those of the font: it is wanted exactly if it
/// has a range, or sits where it does something, or has a mapping that bends,
/// or the source names its axes.
pub proof fn law_wanted_axes_are_kept(font: Font, all: Seq<Axis>, n: int)
    requires
        0 <= n < all.len(),
        all.len() <= usize::MAX,
    ensures
        wanted_axes(font, all, 0).len() == 0,
        ({
            let bends = match mapping_of(font, n) {
                Some(m) => exists|k: int| 0 <= k < m.len() && (#[trigger] m[k]).0 != m[k].1,
                None => false,
            };
            wanted_axes(font, all, n + 1) == if all[n].min < all[n].max || all[n].min != idle_at(
                all[n].tag,
            ) || bends || font.declares_axes {
                wanted_axes(font, all, n).push(n as usize)
            } else {
                wanted_axes(font, all, n)
            }
        }),
{
    if let Some(m) = mapping_of(font, n) {
        if exists|k: int| 0 <= k < m.len() && (#[trigger] m[k]).0 != m[k].1 {
            assert(!is_identity(m));
        } else {
            assert(is_identity(m));
        }
    }
}

/// A position is within reach exactly if, on every axis that it has a value
/// for, that value read in user space is between the ends of the axis, which
/// count as inside.
pub proof fn law_positions_are_within_reach_between_the_ends<F: Fn(&CoordConverter, Real) -> Real>(
    to_user: F,
    axes: Seq<Axis>,
    axis_indices: Seq<usize>,
    values: Seq<Real>,
    k: int,
)
    requires
        axes.len() == axis_indices.len(),
        0 <= k < axes.len(),
        axis_indices[k] < values.len(),
    ensures
        ({
            let at = pin::converted(to_user, axes[k].converter, values[axis_indices[k] as int]);
            at < axes[k].min || axes[k].max < at ==> !is_in_range(
                to_user,
                axes,
                axis_indices,
                values,
            )
        }),
        (forall|j: int|
            0 <= j < axes.len() && axis_indices[j] < values.len() ==> (#[trigger] axes[j]).min
                <= pin::converted(to_user, axes[j].converter, values[axis_indices[j] as int])
                && pin::converted(to_user, axes[j].converter, values[axis_indices[j] as int])
                <= axes[j].max) ==> is_in_range(to_user, axes, axis_indices, values),
{
    let at = pin::converted(to_user, axes[k].converter, values[axis_indices[k] as int]);
    if at < axes[k].min || axes[k].max < at {
        assert(!is_on_axis(to_user, axes[k], axis_indices[k] as int, values));
    }
}

/// Masters stay exactly if they are within reach, those of the same id going
/// together.
pub proof fn law_masters_within_reach_stay<F: Fn(&CoordConverter, Real) -> Real>(
    to_user: F,
    axes: Seq<Axis>,
    axis_indices: Seq<usize>,
    masters: Seq<FontMaster>,
    i: int,
)
    requires
        0 <= i < masters.len(),
        forall|a: int, b: int| 0 <= a < b < masters.len() ==> masters[a].id@ != masters[b].id@,
    ensures
        is_in_range(to_user, axes, axis_indices, masters[i].axes_values@) ==> surviving_masters(
            to_user,
            axes,
            axis_indices,
            masters,
        ).contains(masters[i]),
        !is_in_range(to_user, axes, axis_indices, masters[i].axes_values@) ==> is_dropped(
            to_user,
            axes,
            axis_indices,
            masters,
            masters[i].id@,
        ) && forall|k: int|
            0 <= k < surviving_masters(to_user, axes, axis_indices, masters).len() ==> (
            #[trigger] surviving_masters(to_user, axes, axis_indices, masters)[k]).id@
                != masters[i].id@,
{
    let flags = masters.map_values(
        |m: FontMaster| !is_dropped(to_user, axes, axis_indices, masters, m.id@),
    );
    let rest = surviving_masters(to_user, axes, axis_indices, masters);
    if is_in_range(to_user, axes, axis_indices, masters[i].axes_values@) {
        assert(!is_dropped(to_user, axes, axis_indices, masters, masters[i].id@)) by {
            if is_dropped(to_user, axes, axis_indices, masters, masters[i].id@) {
                let k = choose|k: int|
                    0 <= k < masters.len() && (#[trigger] masters[k]).id@ == masters[i].id@
                        && !is_in_range(to_user, axes, axis_indices, masters[k].axes_values@);
                if k < i {
                    assert(masters[k].id@ != masters[i].id@);
                } else if i < k {
                    assert(masters[i].id@ != masters[k].id@);
                }
            }
        }
        assert(flags[i]);
        lookup::law_what_is_flagged_is_kept(masters, flags, i);
    } else {
        assert forall|k: int| 0 <= k < rest.len() implies (#[trigger] rest[k]).id@
            != masters[i].id@ by {
            let j = lookup::law_what_is_kept_was_flagged(masters, flags, k);
            assert(flags[j]);
        }
    }
}

/// Instances stay if they are within reach, or are whole variable fonts.
pub proof fn law_instances_within_reach_stay<F: Fn(&CoordConverter, Real) -> Real>(
    to_user: F,
    axes: Seq<Axis>,
    axis_indices: Seq<usize>,
    instances: Seq<Instance>,
    instance: Instance,
)
    ensures
        surviving_instances(to_user, axes, axis_indices, Seq::empty()).len() == 0,
        instance.type_ is Variable || is_in_range(
            to_user,
            axes,
            axis_indices,
            instance.axes_values@,
        ) ==> surviving_instances(to_user, axes, axis_indices, instances.push(instance))
            == surviving_instances(to_user, axes, axis_indices, instances).push(instance),
        instance.type_ is Single && !is_in_range(
            to_user,
            axes,
            axis_indices,
            instance.axes_values@,
        ) ==> surviving_instances(to_user, axes, axis_indices, instances.push(instance))
            == surviving_instances(to_user, axes, axis_indices, instances),
{
    let stays = |i: Instance|
        i.type_ != InstanceType::Single || is_in_range(to_user, axes, axis_indices, i.axes_values@);
    let flags = instances.map_values(stays);
    assert(instances.push(instance).map_values(stays) =~= flags.push(stays(instance)));
    lookup::law_lists_are_filtered_one_by_one(instances, flags, instance, stays(instance));
    assert(Seq::<Instance>::empty().map_values(stays) =~= Seq::empty());
}

/// Of each glyph, the layers of the masters that stay do, and nothing else of
/// the glyph changes.
pub proof fn law_layers_stay_with_their_masters<F: Fn(&CoordConverter, Real) -> Real>(
    to_user: F,
    axes: Seq<Axis>,
    axis_indices: Seq<usize>,
    masters: Seq<FontMaster>,
    layers: Seq<Layer>,
    layer: Layer,
)
    ensures
        surviving_layers(to_user, axes, axis_indices, masters, Seq::empty()).len() == 0,
        surviving_layers(to_user, axes, axis_indices, masters, layers.push(layer))
            == if is_dropped(to_user, axes, axis_indices, masters, layer.master()) {
            surviving_layers(to_user, axes, axis_indices, masters, layers)
        } else {
            surviving_layers(to_user, axes, axis_indices, masters, layers).push(layer)
        },
{
    let stays = |l: Layer| !is_dropped(to_user, axes, axis_indices, masters, l.master());
    let flags = layers.map_values(stays);
    assert(layers.push(layer).map_values(stays) =~= flags.push(stays(layer)));
    lookup::law_lists_are_filtered_one_by_one(layers, flags, layer, stays(layer));
    assert(Seq::<Layer>::empty().map_values(stays) =~= Seq::empty());
}

/// The default master stays the default if it is within reach. If it is not,
/// the first master left that is at the default of every axis takes over.
pub proof fn law_the_default_master_stays_or_is_replaced<
    F: Fn(&CoordConverter, Real) -> Real,
    G: Fn(&CoordConverter, Real) -> Real,
>(
    to_user: F,
    to_design: G,
    axes: Seq<Axis>,
    axis_indices: Seq<usize>,
    font: Font,
    idx: int,
)
    requires
        font.default_master_idx < font.masters@.len(),
        is_first_set(default_flags(to_user, to_design, axes, axis_indices, font), idx),
    ensures
        ({
            let left = surviving_masters(to_user, axes, axis_indices, font.masters@);
            let was = font.masters@[font.default_master_idx as int].id@;
            let gone = exists|i: int|
                0 <= i < font.masters@.len() && (#[trigger] font.masters@[i]).id@ == was
                    && !is_in_range(to_user, axes, axis_indices, font.masters@[i].axes_values@);
            &&& 0 <= idx < left.len()
            &&& !gone ==> left[idx].id@ == was
            &&& gone ==> is_at_default(to_design, axes, axis_indices, left[idx].axes_values@)
                && forall|k: int|
                0 <= k < idx ==> !is_at_default(
                    to_design,
                    axes,
                    axis_indices,
                    (#[trigger] left[k]).axes_values@,
                )
        }),
{
    let left = surviving_masters(to_user, axes, axis_indices, font.masters@);
    let flags = default_flags(to_user, to_design, axes, axis_indices, font);
    assert(flags.len() == left.len());
    assert(flags[idx]);
    assert forall|k: int| 0 <= k < idx implies !flags[k] by {}
    let was = font.masters@[font.default_master_idx as int].id@;
    if is_dropped(to_user, axes, axis_indices, font.masters@, was) {
        assert forall|k: int| 0 <= k < idx implies !is_at_default(
            to_design,
            axes,
            axis_indices,
            (#[trigger] left[k]).axes_values@,
        ) by {
            assert(!flags[k]);
        }
    }
}

/// A master is at the default if, on every axis, its value is where the axis has
/// its default in design space.
pub proof fn law_masters_at_the_default_are_there_on_every_axis<
    F: Fn(&CoordConverter, Real) -> Real,
>(to_design: F, axes: Seq<Axis>, axis_indices: Seq<usize>, values: Seq<Real>, k: int)
    requires
        axes.len() == axis_indices.len(),
        0 <= k < axes.len(),
    ensures
        is_at_default(to_design, axes, axis_indices, values) ==> axis_indices[k] < values.len()
            && values[axis_indices[k] as int] == pin::converted(
            to_design,
            axes[k].converter,
            axes[k].default,
        ),
        (forall|j: int|
            0 <= j < axes.len() ==> axis_indices[j] < values.len()
                && values[axis_indices[j] as int] == pin::converted(
                to_design,
                (#[trigger] axes[j]).converter,
                axes[j].default,
            )) ==> is_at_default(to_design, axes, axis_indices, values),
{
    if is_at_default(to_design, axes, axis_indices, values) {
        assert(is_default_of(to_design, axes[k], axis_indices[k] as int, values));
    }
}

/// A master that has more or fewer values than there are axes is an error, and
/// the first such master is told with all axes. Without one, the first axis that
/// cannot be had is.
pub proof fn law_the_first_bad_axis_is_told<
    P: Fn(&Vec<(Real, Real)>, Real) -> Real,
    A: Fn(&Vec<(Real, Real)>, usize) -> Option<String>,
>(piecewise: P, refuse: A, font: Font, all: Seq<Axis>, e: AxisError, m: int)
    requires
        axes_fail_with(piecewise, refuse, font, all, e),
    ensures
        0 <= m < font.masters@.len() && font.masters@[m].axes_values@.len() != font.axes@.len() && (
        forall|k: int|
            0 <= k < m ==> (#[trigger] font.masters@[k]).axes_values@.len() == font.axes@.len())
            ==> (e matches AxisError::InconsistentAxisDefinitions { axes, axis_values }
            && axis_values@ == font.masters@[m].axes_values@
            && glyphs_source::axis_views(axes@) == glyphs_source::axis_views(font.axes@)),
        (forall|k: int|
            0 <= k < font.masters@.len() ==> (#[trigger] font.masters@[k]).axes_values@.len()
                == font.axes@.len()) ==> !(e is InconsistentAxisDefinitions) && all.len()
            < font.axes@.len() && axis_becomes(
            piecewise,
            refuse,
            mapping_of(font, all.len() as int),
            axis_values(font, all.len() as int),
            font.default_master_idx as int,
            font.axes@[all.len() as int],
            Err(e),
        ),
{
    if e is InconsistentAxisDefinitions {
        let values = e->axis_values;
        let f = choose|f: int| #[trigger]
            is_first_inconsistent(font, f) && values@ == font.masters@[f].axes_values@;
        assert(is_first_inconsistent(font, f));
        if 0 <= m < font.masters@.len() && font.masters@[m].axes_values@.len() != font.axes@.len()
            && (forall|k: int|
            0 <= k < m ==> (#[trigger] font.masters@[k]).axes_values@.len() == font.axes@.len()) {
            if f < m {
                assert(font.masters@[f].axes_values@.len() == font.axes@.len());
            } else if m < f {
                assert(is_consistent(font, font.masters@[m]));
            }
        }
    } else if 0 <= m < font.masters@.len() {
        assert(is_consistent(font, font.masters@[m]));
    }
}

/// Of a glyph nothing but layers is lost.
pub proof fn law_glyphs_keep_everything_but_layers<F: Fn(&CoordConverter, Real) -> Real>(
    to_user: F,
    axes: Seq<Axis>,
    axis_indices: Seq<usize>,
    font: Font,
    rest: Font,
    i: int,
)
    requires
        is_remainder(to_user, axes, axis_indices, font, rest),
        0 <= i < font.glyphs@.len(),
    ensures
        rest.glyphs@.len() == font.glyphs@.len(),
        rest.glyphs@[i].name == font.glyphs@[i].name,
        rest.glyphs@[i].production_name == font.glyphs@[i].production_name,
        rest.glyphs@[i].export == font.glyphs@[i].export,
        rest.glyphs@[i].layers@ == surviving_layers(
            to_user,
            axes,
            axis_indices,
            font.masters@,
            font.glyphs@[i].layers@,
        ),
{
    assert(is_glyph_remainder(
        to_user,
        axes,
        axis_indices,
        font.masters@,
        font.glyphs@[i],
        rest.glyphs@[i],
    ));
}

} // verus!
