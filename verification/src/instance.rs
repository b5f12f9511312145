//! Pinning variable data at a single location.
//!
//! Given data that varies across a design space, these functions produce the
//! equivalent data defined at exactly one location. Nothing here rounds, and
//! everything combines masters rather than deltas: a master that does not
//! contribute at the pin contributes no keys either.

use crate::coords;
use crate::coords::{Axis, Location, Real, Tag, TagProblem};
use crate::glyph::{Anchor, Glyph, GlyphAnchors, GlyphInstance};
use crate::lookup;
use crate::numeric;
use crate::static_metadata::{
    Condition, ConditionSet, GlobalMetric, NamedInstance, Rule, StaticMetadata, VariableFeature,
};
use crate::text;
use vstd::prelude::*;
use vstd::string::*;

verus! {

/// Which instance of a variable source to build, as the user asked for it.
#[derive(Debug, PartialEq, Eq)]
pub enum InstanceSpec {
    /// A position in user space, on some of the axes. Axes the user didn't
    /// mention take their default.
    Location(Location),
    /// The style name of one of the source's named instances.
    Named(String),
}

/// What is wrong with the spelling of an instance.
#[derive(Debug, PartialEq, Eq)]
pub enum InstanceSpecError {
    Empty,
    NotAnAxisPosition(String),
    InvalidTag { raw: String, cause: TagProblem },
    InvalidPosition { tag: Tag, value: String },
    DuplicateAxis(Tag),
}

/// What is wrong with the spelling of an instance.
pub enum SpecProblem {
    Empty,
    NotAnAxisPosition(Seq<char>),
    InvalidTag(Seq<char>, TagProblem),
    InvalidPosition(Tag, Seq<char>),
    DuplicateAxis(Tag),
}

impl View for InstanceSpecError {
    type V = SpecProblem;

    open spec fn view(&self) -> SpecProblem {
        match *self {
            InstanceSpecError::Empty => SpecProblem::Empty,
            InstanceSpecError::NotAnAxisPosition(s) => SpecProblem::NotAnAxisPosition(s@),
            InstanceSpecError::InvalidTag { raw, cause } => SpecProblem::InvalidTag(raw@, cause),
            InstanceSpecError::InvalidPosition { tag, value } => SpecProblem::InvalidPosition(
                tag,
                value@,
            ),
            InstanceSpecError::DuplicateAxis(tag) => SpecProblem::DuplicateAxis(tag),
        }
    }
}

/// Whether an axis is among these positions.
pub open spec fn is_given(positions: Seq<(Tag, Real)>, tag: Tag) -> bool {
    exists|i: int| 0 <= i < positions.len() && (#[trigger] positions[i]).0 == tag
}

/// One more `axis=position` after these positions.
pub open spec fn with_term<P: Fn(&String) -> Option<Real>>(
    p: P,
    positions: Seq<(Tag, Real)>,
    raw: Seq<char>,
) -> Result<Seq<(Tag, Real)>, SpecProblem> {
    let term = text::trimmed(raw);
    match text::first_at(term, '=') {
        None => Err(SpecProblem::NotAnAxisPosition(term)),
        Some(i) => {
            let raw_tag = text::trimmed(term.take(i));
            let raw_pos = text::trimmed(term.skip(i + 1));
            match coords::tag_spelled(raw_tag) {
                Err(cause) => Err(SpecProblem::InvalidTag(raw_tag, cause)),
                Ok(tag) => match numeric::number_in(p, raw_pos) {
                    None => Err(SpecProblem::InvalidPosition(tag, raw_pos)),
                    Some(pos) => if is_given(positions, tag) {
                        Err(SpecProblem::DuplicateAxis(tag))
                    } else {
                        Ok(positions.push((tag, pos)))
                    },
                },
            }
        },
    }
}

/// What a series of `axis=position` says, or the first thing wrong with it.
pub open spec fn positions_in<P: Fn(&String) -> Option<Real>>(
    p: P,
    terms: Seq<Seq<char>>,
) -> Result<Seq<(Tag, Real)>, SpecProblem>
    decreases terms.len(),
{
    if terms.len() == 0 {
        Ok(seq![])
    } else {
        match positions_in(p, terms.drop_last()) {
            Err(e) => Err(e),
            Ok(positions) => with_term(p, positions, terms.last()),
        }
    }
}

/// What the spelling of an instance comes to.
pub open spec fn spec_reads_as<P: Fn(&String) -> Option<Real>>(
    p: P,
    raw: Seq<char>,
    r: Result<InstanceSpec, InstanceSpecError>,
) -> bool {
    let s = text::trimmed(raw);
    if s.len() == 0 {
        r is Err && r->Err_0@ == SpecProblem::Empty
    } else if !s.contains('=') {
        r matches Ok(InstanceSpec::Named(name)) && name@ == s
    } else {
        match positions_in(p, text::split(s, ',')) {
            Ok(positions) => r matches Ok(InstanceSpec::Location(at)) && at@
                == coords::collected(positions),
            Err(problem) => r is Err && r->Err_0@ == problem,
        }
    }
}

impl InstanceSpec {
    /// `wght=700,wdth=87.5` is a location; anything without an `=` is a style
    /// name. `position` reads a finite number.
    pub fn from_str<P: Fn(&String) -> Option<Real>>(s: &str, position: &P) -> (r: Result<
        InstanceSpec,
        InstanceSpecError,
    >)
        requires
            numeric::is_reader(*position),
        ensures
            spec_reads_as(*position, s@, r),
    {
        let chars: Vec<char> = text::trim(&text::chars_of(s));
        if chars.len() == 0 {
            return Err(InstanceSpecError::Empty);
        }
        if text::find_char(&chars, '=').is_none() {
            return Ok(InstanceSpec::Named(text::string_of(&chars)));
        }
        let terms: Vec<Vec<char>> = text::split_at(&chars, ',');
        let ghost all = text::split(chars@, ',');
        let mut positions: Vec<(Tag, Real)> = Vec::new();
        let mut i: usize = 0;
        assert(Ok::<Seq<(Tag, Real)>, SpecProblem>(positions@) == positions_in(
            *position,
            all.take(0),
        ));
        while i < terms.len()
            invariant
                i <= terms@.len(),
                numeric::is_reader(*position),
                chars@ == text::trimmed(s@),
                chars@.len() > 0,
                chars@.contains('='),
                all == text::split(chars@, ','),
                all == text::parts(terms@),
                positions_in(*position, all.take(i as int)) == Ok::<Seq<(Tag, Real)>, SpecProblem>(
                    positions@,
                ),
            decreases terms.len() - i,
        {
            proof {
                assert(all.take(i + 1).drop_last() =~= all.take(i as int));
                assert(all.take(i + 1).last() == terms@[i as int]@);
                if positions_in(*position, all.take(i + 1)) is Err {
                    lemma_errors_stay(*position, all, i + 1, all.len() as int);
                }
            }
            assert(all.take(all.len() as int) =~= all);
            let term: Vec<char> = text::trim(&terms[i]);
            let at: usize = match text::find_char(&term, '=') {
                Some(at) => at,
                None => {
                    return Err(InstanceSpecError::NotAnAxisPosition(text::string_of(&term)));
                },
            };
            let tag_part: Vec<char> = text::slice(&term, 0, at);
            let end: usize = term.len();
            let pos_part: Vec<char> = text::slice(&term, at + 1, end);
            assert(tag_part@ =~= term@.take(at as int));
            assert(pos_part@ =~= term@.skip(at + 1));
            let raw_tag: String = text::string_of(&text::trim(&tag_part));
            let raw_pos: String = text::string_of(&text::trim(&pos_part));
            let tag: Tag = match Tag::parse(raw_tag.as_str()) {
                Ok(tag) => tag,
                Err(cause) => {
                    return Err(InstanceSpecError::InvalidTag { raw: raw_tag, cause });
                },
            };
            let pos: Real = match numeric::read_number(position, &raw_pos) {
                Some(pos) => pos,
                None => {
                    return Err(InstanceSpecError::InvalidPosition { tag, value: raw_pos });
                },
            };
            if has_tag(&positions, tag) {
                return Err(InstanceSpecError::DuplicateAxis(tag));
            }
            positions.push((tag, pos));
            i = i + 1;
        }
        assert(all.take(i as int) =~= all);
        Ok(InstanceSpec::Location(Location::from_pairs(&positions)))
    }
}

fn has_tag(positions: &Vec<(Tag, Real)>, tag: Tag) -> (r: bool)
    ensures
        r == is_given(positions@, tag),
{
    let mut i: usize = 0;
    while i < positions.len()
        invariant
            i <= positions@.len(),
            forall|j: int| 0 <= j < i ==> (#[trigger] positions@[j]).0 != tag,
        decreases positions.len() - i,
    {
        if positions[i].0 == tag {
            return true;
        }
        i = i + 1;
    }
    false
}

/// The first thing wrong with a series is what is wrong with all of it.
proof fn lemma_errors_stay<P: Fn(&String) -> Option<Real>>(
    p: P,
    terms: Seq<Seq<char>>,
    a: int,
    b: int,
)
    requires
        0 <= a <= b <= terms.len(),
        positions_in(p, terms.take(a)) is Err,
    ensures
        positions_in(p, terms.take(b)) == positions_in(p, terms.take(a)),
    decreases b - a,
{
    if a < b {
        lemma_errors_stay(p, terms, a, b - 1);
        assert(terms.take(b).drop_last() =~= terms.take(b - 1));
    }
}

/// Why an instance doesn't name a position the source has.
#[derive(Debug, PartialEq, Eq)]
pub enum PinError {
    /// The source has no variable axes.
    RequiresVariableSource,
    UnknownAxis { tag: Tag, available: String },
    AxisOutOfRange { tag: Tag, pos: Real, min: Real, max: Real },
    UnknownInstance { name: String, available: String },
    /// The location cannot be normalized, for the reason given.
    Location(String),
}

/// The strings of a list in a row, or `none` if there are none.
pub open spec fn listed(items: Seq<Seq<char>>) -> Seq<char> {
    if items.len() == 0 {
        "none"@
    } else {
        text::joined(items, ", "@)
    }
}

fn comma_separated(items: &Vec<String>) -> (r: String)
    ensures
        r@ == listed(text::texts(items@)),
{
    if items.len() == 0 {
        "none".to_string()
    } else {
        text::join(items, ", ")
    }
}

/// The position on every axis: what is asked for, and the default otherwise.
pub open spec fn completed(axes: Seq<Axis>, asked_for: Map<Tag, Real>) -> Map<Tag, Real>
    decreases axes.len(),
{
    if axes.len() == 0 {
        Map::empty()
    } else {
        let axis = axes.last();
        completed(axes.drop_last(), asked_for).insert(
            axis.tag,
            if asked_for.contains_key(axis.tag) {
                asked_for[axis.tag]
            } else {
                axis.default
            },
        )
    }
}

/// The position on every axis: what is asked for, and the default otherwise.
pub fn complete_location(axes: &Vec<Axis>, asked_for: &Location) -> (r: Location)
    ensures
        r@ == completed(axes@, asked_for@),
{
    let mut r = Location::new();
    let mut i: usize = 0;
    while i < axes.len()
        invariant
            i <= axes@.len(),
            r@ == completed(axes@.take(i as int), asked_for@),
        decreases axes.len() - i,
    {
        assert(axes@.take(i + 1).drop_last() =~= axes@.take(i as int));
        let pos: Real = match asked_for.get(axes[i].tag) {
            Some(pos) => pos,
            None => axes[i].default,
        };
        r.insert(axes[i].tag, pos);
        i = i + 1;
    }
    assert(axes@.take(i as int) =~= axes@);
    r
}

/// The index of the first instance with a name.
pub open spec fn instance_named(instances: Seq<NamedInstance>, name: Seq<char>) -> Option<int>
    decreases instances.len(),
{
    if instances.len() == 0 {
        None
    } else {
        match instance_named(instances.drop_last(), name) {
            Some(i) => Some(i),
            None => if instances.last().name@ == name {
                Some(instances.len() - 1)
            } else {
                None
            },
        }
    }
}

proof fn lemma_instance_named(instances: Seq<NamedInstance>, name: Seq<char>)
    ensures
        match instance_named(instances, name) {
            Some(i) => 0 <= i < instances.len() && instances[i].name@ == name && forall|j: int|
                0 <= j < i ==> (#[trigger] instances[j]).name@ != name,
            None => forall|j: int|
                0 <= j < instances.len() ==> (#[trigger] instances[j]).name@ != name,
        },
    decreases instances.len(),
{
    if instances.len() > 0 {
        let rest = instances.drop_last();
        lemma_instance_named(rest, name);
        assert(forall|j: int| 0 <= j < rest.len() ==> #[trigger] instances[j] == rest[j]);
    }
}

fn find_instance_named(instances: &Vec<NamedInstance>, name: &String) -> (r: Option<usize>)
    ensures
        instance_named(instances@, name@) == (match r {
            Some(i) => Some(i as int),
            None => None,
        }),
        r is Some ==> r->0 < instances@.len(),
{
    proof {
        lemma_instance_named(instances@, name@);
    }
    let mut i: usize = 0;
    while i < instances.len()
        invariant
            i <= instances@.len(),
            forall|j: int| 0 <= j < i ==> (#[trigger] instances@[j]).name@ != name@,
            match instance_named(instances@, name@) {
                Some(i) => 0 <= i < instances@.len() && instances@[i].name@ == name@ && forall|
                    j: int,
                |
                    0 <= j < i ==> (#[trigger] instances@[j]).name@ != name@,
                None => forall|j: int|
                    0 <= j < instances@.len() ==> (#[trigger] instances@[j]).name@ != name@,
            },
        decreases instances.len() - i,
    {
        if instances[i].name == *name {
            return Some(i);
        }
        i = i + 1;
    }
    None
}

/// Whether a position is on an axis the source has, and within its range.
pub open spec fn is_available(axes: Seq<Axis>, tag: Tag, pos: Real) -> bool {
    match coords::axis_with(axes, tag) {
        Some(i) => axes[i].min <= pos <= axes[i].max,
        None => false,
    }
}

/// The names of the instances of a source.
pub open spec fn instance_texts(instances: Seq<NamedInstance>) -> Seq<Seq<char>> {
    instances.map_values(|i: NamedInstance| i.name@)
}

/// How the axes of a source read.
pub open spec fn axis_texts(axes: Seq<Axis>) -> Seq<Seq<char>> {
    axes.map_values(|a: Axis| coords::tag_text(a.tag))
}

/// The error for a position that is not available.
pub open spec fn is_unavailable(axes: Seq<Axis>, tag: Tag, pos: Real, e: PinError) -> bool {
    match coords::axis_with(axes, tag) {
        None => e matches PinError::UnknownAxis { tag: t, available } && t == tag && available@
            == listed(axis_texts(axes)),
        Some(i) => e == (PinError::AxisOutOfRange {
            tag,
            pos,
            min: axes[i].min,
            max: axes[i].max,
        }),
    }
}

/// The error for the first position, in ascending order of tag, that is not
/// available.
pub open spec fn is_first_unavailable(
    axes: Seq<Axis>,
    at: Map<Tag, Real>,
    tag: Tag,
    e: PinError,
) -> bool {
    &&& at.contains_key(tag)
    &&& !is_available(axes, tag, at[tag])
    &&& is_unavailable(axes, tag, at[tag], e)
    &&& forall|u: Tag| #[trigger]
        at.contains_key(u) && u.0 < tag.0 ==> is_available(axes, u, at[u])
}

/// What a location resolves to in user space.
pub open spec fn location_resolves_to(
    axes: Seq<Axis>,
    at: Map<Tag, Real>,
    r: Result<Location, PinError>,
) -> bool {
    match r {
        Ok(full) => full@ == completed(axes, at) && forall|t: Tag| #[trigger]
            at.contains_key(t) ==> is_available(axes, t, at[t]),
        Err(e) => exists|t: Tag| is_first_unavailable(axes, at, t, e),
    }
}

/// What an instance resolves to in user space.
///
/// A location must be available on every axis it names; the first that is not,
/// in ascending order of tag, is reported.
pub open spec fn resolves_to(
    static_metadata: StaticMetadata,
    spec: InstanceSpec,
    r: Result<Location, PinError>,
) -> bool {
    let axes = static_metadata.axes@;
    let instances = static_metadata.named_instances@;
    if axes.len() == 0 {
        r == Err::<Location, PinError>(PinError::RequiresVariableSource)
    } else {
        match spec {
            InstanceSpec::Named(name) => match instance_named(instances, name@) {
                Some(i) => r is Ok && r->Ok_0@ == completed(axes, instances[i].location@),
                None => r matches Err(PinError::UnknownInstance { name: n, available }) && n@
                    == name@ && available@ == listed(instance_texts(instances)),
            },
            InstanceSpec::Location(at) => location_resolves_to(axes, at@, r),
        }
    }
}

fn names_of(instances: &Vec<NamedInstance>) -> (r: Vec<String>)
    ensures
        text::texts(r@) == instance_texts(instances@),
{
    let mut r: Vec<String> = Vec::new();
    let mut i: usize = 0;
    while i < instances.len()
        invariant
            i <= instances@.len(),
            text::texts(r@) =~= instance_texts(instances@).take(i as int),
        decreases instances.len() - i,
    {
        let ghost before = r@;
        r.push(instances[i].name.clone());
        assert(text::texts(r@) =~= text::texts(before).push(instances@[i as int].name@));
        i = i + 1;
    }
    assert(text::texts(r@) =~= instance_texts(instances@));
    r
}

fn tag_names_of(axes: &Vec<Axis>) -> (r: Vec<String>)
    ensures
        text::texts(r@) == axis_texts(axes@),
{
    let mut r: Vec<String> = Vec::new();
    let mut i: usize = 0;
    while i < axes.len()
        invariant
            i <= axes@.len(),
            text::texts(r@) =~= axis_texts(axes@).take(i as int),
        decreases axes.len() - i,
    {
        let ghost before = r@;
        r.push(axes[i].tag.text());
        assert(text::texts(r@) =~= text::texts(before).push(
            coords::tag_text(axes@[i as int].tag),
        ));
        i = i + 1;
    }
    assert(text::texts(r@) =~= axis_texts(axes@));
    r
}

/// The user-space location an instance names, on every axis, or why it names
/// none.
///
/// Positions are deliberately not clamped: a silently moved pin is worse than a
/// rejected one.
pub fn resolve_user(static_metadata: &StaticMetadata, spec: &InstanceSpec) -> (r: Result<
    Location,
    PinError,
>)
    ensures
        resolves_to(*static_metadata, *spec, r),
{
    let axes: &Vec<Axis> = &static_metadata.axes;
    if axes.len() == 0 {
        return Err(PinError::RequiresVariableSource);
    }
    match spec {
        InstanceSpec::Named(name) => {
            match find_instance_named(&static_metadata.named_instances, name) {
                Some(i) => Ok(
                    complete_location(axes, &static_metadata.named_instances[i].location),
                ),
                None => Err(
                    PinError::UnknownInstance {
                        name: name.clone(),
                        available: comma_separated(&names_of(&static_metadata.named_instances)),
                    },
                ),
            }
        },
        InstanceSpec::Location(at) => {
            let pairs: Vec<(Tag, Real)> = at.pairs();
            let mut i: usize = 0;
            while i < pairs.len()
                invariant
                    i <= pairs@.len(),
                    *axes == static_metadata.axes,
                    axes@.len() > 0,
                    *spec == InstanceSpec::Location(*at),
                    coords::as_positions(pairs@) == at@,
                    coords::ascending(pairs@),
                    forall|j: int|
                        0 <= j < i ==> is_available(
                            axes@,
                            (#[trigger] pairs@[j]).0,
                            pairs@[j].1,
                        ),
                decreases pairs.len() - i,
            {
                let tag: Tag = pairs[i].0;
                let pos: Real = pairs[i].1;
                proof {
                    coords::lemma_position(pairs@, i as int);
                    coords::lemma_axis_with(axes@, tag);
                    assert forall|u: Tag| #[trigger]
                        at@.contains_key(u) && u.0 < tag.0 implies is_available(
                        axes@,
                        u,
                        at@[u],
                    ) by {
                        let k = choose|k: int|
                            0 <= k < pairs@.len() && (#[trigger] pairs@[k]).0 == u;
                        coords::lemma_position(pairs@, k);
                        assert(k < i);
                    }
                    assert(at@.contains_key(tag));
                }
                match coords::find_axis(axes, tag) {
                    None => {
                        let e = PinError::UnknownAxis {
                            tag,
                            available: comma_separated(&tag_names_of(axes)),
                        };
                        assert(is_first_unavailable(axes@, at@, tag, e));
                        assert(location_resolves_to(axes@, at@, Err(e)));
                        return Err(e);
                    },
                    Some(a) => {
                        if pos < axes[a].min || pos > axes[a].max {
                            let e = PinError::AxisOutOfRange {
                                tag,
                                pos,
                                min: axes[a].min,
                                max: axes[a].max,
                            };
                            assert(is_first_unavailable(axes@, at@, tag, e));
                            assert(location_resolves_to(axes@, at@, Err(e)));
                            return Err(e);
                        }
                    },
                }
                i = i + 1;
            }
            assert forall|t: Tag| #[trigger] at@.contains_key(t) implies is_available(
                axes@,
                t,
                at@[t],
            ) by {
                let k = choose|k: int| 0 <= k < pairs@.len() && (#[trigger] pairs@[k]).0 == t;
                coords::lemma_position(pairs@, k);
            }
            Ok(complete_location(axes, at))
        },
    }
}

/// `user` and `at` are where an instance may put us.
pub open spec fn is_at<N: Fn(&StaticMetadata, &Location) -> Result<Location, String>>(
    normalize: N,
    static_metadata: StaticMetadata,
    spec: InstanceSpec,
    user: Location,
    at: Location,
) -> bool {
    &&& resolves_to(static_metadata, spec, Ok(user))
    &&& call_ensures(normalize, (&static_metadata, &user), Ok(at))
}

/// `e` is why an instance may put us nowhere.
pub open spec fn is_nowhere<N: Fn(&StaticMetadata, &Location) -> Result<Location, String>>(
    normalize: N,
    static_metadata: StaticMetadata,
    spec: InstanceSpec,
    e: PinError,
) -> bool {
    ||| resolves_to(static_metadata, spec, Err(e))
    ||| match e {
        PinError::Location(why) => names_no_place(normalize, static_metadata, spec, why),
        _ => false,
    }
}

/// An instance may name a location that has no place in normalized space.
pub open spec fn names_no_place<N: Fn(&StaticMetadata, &Location) -> Result<Location, String>>(
    normalize: N,
    static_metadata: StaticMetadata,
    spec: InstanceSpec,
    why: String,
) -> bool {
    exists|user: Location| #[trigger]
        is_unreachable(normalize, static_metadata, spec, user, why)
}

/// An instance names `user`, and that may have no place in normalized space.
pub open spec fn is_unreachable<N: Fn(&StaticMetadata, &Location) -> Result<Location, String>>(
    normalize: N,
    static_metadata: StaticMetadata,
    spec: InstanceSpec,
    user: Location,
    why: String,
) -> bool {
    &&& resolves_to(static_metadata, spec, Ok(user))
    &&& call_ensures(normalize, (&static_metadata, &user), Err(why))
}

/// Where an instance puts us, in user space and in normalized space.
pub(crate) fn find_pin<N: Fn(&StaticMetadata, &Location) -> Result<Location, String>>(
    static_metadata: &StaticMetadata,
    spec: &InstanceSpec,
    normalize: &N,
) -> (r: Result<(Location, Location), PinError>)
    requires
        forall|user: Location| call_requires(*normalize, (static_metadata, &user)),
    ensures
        match r {
            Ok((user, at)) => is_at(*normalize, *static_metadata, *spec, user, at),
            Err(e) => is_nowhere(*normalize, *static_metadata, *spec, e),
        },
{
    let user: Location = match resolve_user(static_metadata, spec) {
        Ok(user) => user,
        Err(e) => {
            return Err(e);
        },
    };
    match normalize(static_metadata, &user) {
        Ok(at) => Ok((user, at)),
        Err(why) => {
            assert(is_unreachable(*normalize, *static_metadata, *spec, user, why));
            assert(names_no_place(*normalize, *static_metadata, *spec, why));
            Err(PinError::Location(why))
        },
    }
}

/// `normalized` holds where the named instances of a source may be, on every
/// axis, unless that cannot be said.
pub open spec fn are_instance_places<N: Fn(&StaticMetadata, &Location) -> Result<Location, String>>(
    normalize: N,
    static_metadata: StaticMetadata,
    normalized: Seq<Option<Location>>,
) -> bool {
    &&& normalized.len() == static_metadata.named_instances@.len()
    &&& forall|i: int|
        0 <= i < normalized.len() ==> is_instance_place(
            normalize,
            static_metadata,
            static_metadata.named_instances@[i],
            #[trigger] normalized[i],
        )
}

/// `place` is where an instance may be, unless that cannot be said.
pub open spec fn is_instance_place<N: Fn(&StaticMetadata, &Location) -> Result<Location, String>>(
    normalize: N,
    static_metadata: StaticMetadata,
    ni: NamedInstance,
    place: Option<Location>,
) -> bool {
    exists|user: Location, found: Result<Location, String>|
        user@ == completed(static_metadata.axes@, ni.location@) && #[trigger] call_ensures(
            normalize,
            (&static_metadata, &user),
            found,
        ) && place == (match found {
            Ok(at) => Some(at),
            Err(_) => None,
        })
}

pub(crate) fn instance_places<N: Fn(&StaticMetadata, &Location) -> Result<Location, String>>(
    static_metadata: &StaticMetadata,
    normalize: &N,
) -> (r: Vec<Option<Location>>)
    requires
        forall|user: Location| call_requires(*normalize, (static_metadata, &user)),
    ensures
        are_instance_places(*normalize, *static_metadata, r@),
{
    let mut r: Vec<Option<Location>> = Vec::new();
    let mut i: usize = 0;
    while i < static_metadata.named_instances.len()
        invariant
            i <= static_metadata.named_instances@.len(),
            forall|user: Location| call_requires(*normalize, (static_metadata, &user)),
            r@.len() == i,
            forall|k: int|
                0 <= k < i ==> is_instance_place(
                    *normalize,
                    *static_metadata,
                    static_metadata.named_instances@[k],
                    #[trigger] r@[k],
                ),
        decreases static_metadata.named_instances.len() - i,
    {
        let user: Location = complete_location(
            &static_metadata.axes,
            &static_metadata.named_instances[i].location,
        );
        let found: Result<Location, String> = normalize(static_metadata, &user);
        let ghost what = found;
        let place: Option<Location> = match found {
            Ok(at) => Some(at),
            Err(_) => None,
        };
        assert(call_ensures(*normalize, (static_metadata, &user), what));
        r.push(place);
        i = i + 1;
    }
    r
}

/// `at` is where an instance may put us.
pub open spec fn leads_to<N: Fn(&StaticMetadata, &Location) -> Result<Location, String>>(
    normalize: N,
    static_metadata: StaticMetadata,
    spec: InstanceSpec,
    at: Location,
) -> bool {
    exists|user: Location| #[trigger] is_at(normalize, static_metadata, spec, user, at)
}

/// Where an instance puts us in normalized space.
///
/// `normalize` takes a location there through the source's own axis mapping, or
/// says why that cannot be done.
pub fn resolve<N: Fn(&StaticMetadata, &Location) -> Result<Location, String>>(
    static_metadata: &StaticMetadata,
    spec: &InstanceSpec,
    normalize: &N,
) -> (r: Result<Location, PinError>)
    requires
        forall|user: Location| call_requires(*normalize, (static_metadata, &user)),
    ensures
        match r {
            Ok(at) => leads_to(*normalize, *static_metadata, *spec, at),
            Err(e) => is_nowhere(*normalize, *static_metadata, *spec, e),
        },
{
    match find_pin(static_metadata, spec, normalize) {
        Ok((user, at)) => {
            assert(is_at(*normalize, *static_metadata, *spec, user, at));
            Ok(at)
        },
        Err(e) => Err(e),
    }
}

/// A resolved location names every axis, and no other.
pub proof fn law_resolved_locations_are_complete(
    axes: Seq<Axis>,
    asked_for: Map<Tag, Real>,
    tag: Tag,
)
    ensures
        completed(axes, asked_for).contains_key(tag) <==> coords::tags_of(axes).contains(tag),
        completed(axes, asked_for).contains_key(tag) && asked_for.contains_key(tag) ==> completed(
            axes,
            asked_for,
        )[tag] == asked_for[tag],
    decreases axes.len(),
{
    if axes.len() > 0 {
        let rest = axes.drop_last();
        law_resolved_locations_are_complete(rest, asked_for, tag);
        let a = coords::tags_of(rest);
        let b = coords::tags_of(axes);
        assert(b =~= a.push(axes.last().tag));
        if a.contains(tag) {
            let k = choose|k: int| 0 <= k < a.len() && a[k] == tag;
            assert(b[k] == tag);
        }
        assert(b[a.len() as int] == axes.last().tag);
        if b.contains(tag) {
            let k = choose|k: int| 0 <= k < b.len() && b[k] == tag;
            if k < a.len() {
                assert(a[k] == tag);
            }
        }
    }
}

/// An axis nobody mentions sits at its default, and saying so changes nothing:
/// completing a location twice is completing it once.
pub proof fn law_completing_is_idempotent(axes: Seq<Axis>, asked_for: Map<Tag, Real>)
    ensures
        completed(axes, completed(axes, asked_for)) == completed(axes, asked_for),
{
    let full = completed(axes, asked_for);
    assert forall|t: Tag| full.contains_key(t) == completed(axes, full).contains_key(t) by {
        law_resolved_locations_are_complete(axes, asked_for, t);
        law_resolved_locations_are_complete(axes, full, t);
    }
    assert forall|t: Tag| #[trigger] completed(axes, full).contains_key(t) implies completed(
        axes,
        full,
    )[t] == full[t] by {
        law_resolved_locations_are_complete(axes, asked_for, t);
        law_resolved_locations_are_complete(axes, full, t);
    }
    assert(completed(axes, full) =~= full);
}

/// The instance a pin builds: the one it names, else the first that is there.
///
/// `normalized` holds where each instance is in normalized space, on every
/// axis, unless that cannot be said.
pub open spec fn instance_at(
    instances: Seq<NamedInstance>,
    spec: InstanceSpec,
    pin: Map<Tag, Real>,
    normalized: Seq<Option<Location>>,
) -> Option<int> {
    let by_name = match spec {
        InstanceSpec::Named(name) => instance_named(instances, name@),
        InstanceSpec::Location(_) => None,
    };
    match by_name {
        Some(i) => Some(i),
        None => first_normalized(normalized, pin),
    }
}

/// The first of these locations that is at `pin`.
pub open spec fn first_normalized(normalized: Seq<Option<Location>>, pin: Map<Tag, Real>) -> Option<
    int,
>
    decreases normalized.len(),
{
    if normalized.len() == 0 {
        None
    } else {
        match first_normalized(normalized.drop_last(), pin) {
            Some(i) => Some(i),
            None => match normalized.last() {
                Some(at) => if at@ == pin {
                    Some(normalized.len() - 1)
                } else {
                    None
                },
                None => None,
            },
        }
    }
}

/// The named instance `pin` builds, `normalized` holding where each of them is.
pub fn instance_among<'a>(
    static_metadata: &'a StaticMetadata,
    spec: &InstanceSpec,
    pin: &Location,
    normalized: &Vec<Option<Location>>,
) -> (r: Option<&'a NamedInstance>)
    requires
        normalized@.len() == static_metadata.named_instances@.len(),
    ensures
        r == (match instance_at(
            static_metadata.named_instances@,
            *spec,
            pin@,
            normalized@,
        ) {
            Some(i) => Some(&static_metadata.named_instances@[i]),
            None => None,
        }),
{
    if let InstanceSpec::Named(name) = spec {
        if let Some(i) = find_instance_named(&static_metadata.named_instances, name) {
            return Some(&static_metadata.named_instances[i]);
        }
    }
    let mut found: Option<usize> = None;
    let mut i: usize = 0;
    while i < normalized.len()
        invariant
            i <= normalized@.len(),
            first_normalized(normalized@.take(i as int), pin@) == (match found {
                Some(k) => Some(k as int),
                None => None,
            }),
            found is Some ==> found->0 < normalized@.len(),
        decreases normalized.len() - i,
    {
        assert(normalized@.take(i + 1).drop_last() =~= normalized@.take(i as int));
        if found.is_none() {
            if let Some(at) = &normalized[i] {
                if at.same(pin) {
                    found = Some(i);
                }
            }
        }
        i = i + 1;
    }
    assert(normalized@.take(i as int) =~= normalized@);
    match found {
        Some(k) => Some(&static_metadata.named_instances[k]),
        None => None,
    }
}

/// `found` is the instance that a pin may build, if the source has one there.
pub open spec fn may_build<N: Fn(&StaticMetadata, &Location) -> Result<Location, String>>(
    normalize: N,
    static_metadata: StaticMetadata,
    spec: InstanceSpec,
    pin: Map<Tag, Real>,
    found: Option<NamedInstance>,
) -> bool {
    exists|places: Seq<Option<Location>>| #[trigger]
        are_instance_places(normalize, static_metadata, places) && found == (match instance_at(
            static_metadata.named_instances@,
            spec,
            pin,
            places,
        ) {
            Some(i) => Some(static_metadata.named_instances@[i]),
            None => None,
        })
}

/// The named instance `pin` builds, if the source has one there.
///
/// Matching is by resolved normalized location: two ways of writing the same
/// position have to name the same instance. A name wins over the location
/// match, and each candidate's own location counts, whatever it is called.
pub fn named_instance_at<'a, N: Fn(&StaticMetadata, &Location) -> Result<Location, String>>(
    static_metadata: &'a StaticMetadata,
    spec: &InstanceSpec,
    pin: &Location,
    normalize: &N,
) -> (r: Option<&'a NamedInstance>)
    requires
        forall|user: Location| call_requires(*normalize, (static_metadata, &user)),
    ensures
        may_build(
            *normalize,
            *static_metadata,
            *spec,
            pin@,
            match r {
                Some(ni) => Some(*ni),
                None => None,
            },
        ),
{
    let places: Vec<Option<Location>> = instance_places(static_metadata, normalize);
    assert(are_instance_places(*normalize, *static_metadata, places@));
    instance_among(static_metadata, spec, pin, &places)
}

/// How global metrics are to be finished.
#[derive(Debug, PartialEq, Eq)]
pub enum MetricsBuild {
    /// Across the whole design space.
    Variable,
    /// At a pin, keyed by `key`, with `overrides` over what is interpolated.
    Pinned { pin: Location, key: Location, overrides: Vec<(GlobalMetric, Real)> },
}

/// `build` is how metrics may be finished for an instance: at a place it may
/// put us, with the metrics that the named instance there states.
pub open spec fn metrics_finish_as<N: Fn(&StaticMetadata, &Location) -> Result<Location, String>>(
    normalize: N,
    static_metadata: StaticMetadata,
    spec: InstanceSpec,
    build: MetricsBuild,
) -> bool {
    build matches MetricsBuild::Pinned { pin, key, overrides } && leads_to(
        normalize,
        static_metadata,
        spec,
        pin,
    ) && key@ == static_metadata.home() && has_metrics_of_instance(
        normalize,
        static_metadata,
        spec,
        pin@,
        overrides@,
    )
}

/// `metrics` are what the named instance that a pin may build states.
pub open spec fn has_metrics_of_instance<
    N: Fn(&StaticMetadata, &Location) -> Result<Location, String>,
>(
    normalize: N,
    static_metadata: StaticMetadata,
    spec: InstanceSpec,
    pin: Map<Tag, Real>,
    metrics: Seq<(GlobalMetric, Real)>,
) -> bool {
    exists|ni: Option<NamedInstance>| #[trigger]
        may_build(normalize, static_metadata, spec, pin, ni) && metrics == (match ni {
            Some(ni) => ni.overrides.metrics@,
            None => Seq::empty(),
        })
}

/// How to finish global metrics: pinned if an instance is being built.
///
/// An instance that doesn't resolve has no sensible metrics.
pub fn build_global_metrics<N: Fn(&StaticMetadata, &Location) -> Result<Location, String>>(
    static_metadata: &StaticMetadata,
    instance: Option<&InstanceSpec>,
    normalize: &N,
) -> (r: Result<MetricsBuild, PinError>)
    requires
        forall|user: Location| call_requires(*normalize, (static_metadata, &user)),
    ensures
        match instance {
            None => r == Ok::<MetricsBuild, PinError>(MetricsBuild::Variable),
            Some(spec) => match r {
                Ok(build) => metrics_finish_as(*normalize, *static_metadata, *spec, build),
                Err(e) => is_nowhere(*normalize, *static_metadata, *spec, e),
            },
        },
{
    match instance {
        None => Ok(MetricsBuild::Variable),
        Some(spec) => match resolve(static_metadata, spec, normalize) {
            Err(e) => Err(e),
            Ok(at) => {
                let found: Option<&NamedInstance> = named_instance_at(
                    static_metadata,
                    spec,
                    &at,
                    normalize,
                );
                let ghost ni: Option<NamedInstance> = match found {
                    Some(ni) => Some(*ni),
                    None => None,
                };
                let overrides: Vec<(GlobalMetric, Real)> = match found {
                    Some(named) => lookup::copied(&named.overrides.metrics),
                    None => Vec::new(),
                };
                proof {
                    assert(may_build(*normalize, *static_metadata, *spec, at@, ni));
                    assert(has_metrics_of_instance(
                        *normalize,
                        *static_metadata,
                        *spec,
                        at@,
                        overrides@,
                    ));
                }
                let build = MetricsBuild::Pinned {
                    pin: at,
                    key: static_metadata.default_location().clone(),
                    overrides,
                };
                assert(metrics_finish_as(*normalize, *static_metadata, *spec, build));
                Ok(build)
            },
        },
    }
}

/// Whether a condition is met at a pin. A condition on an axis the pin doesn't
/// have cannot be; both bounds count as inside.
pub open spec fn is_met(condition: Condition, pin: Map<Tag, Real>) -> bool {
    &&& pin.contains_key(condition.axis)
    &&& condition.min matches Some(min) ==> min <= pin[condition.axis]
    &&& condition.max matches Some(max) ==> pin[condition.axis] <= max
}

/// Whether every condition of a set is met.
pub open spec fn set_is_met(set: Seq<Condition>, pin: Map<Tag, Real>) -> bool {
    forall|i: int| 0 <= i < set.len() ==> is_met(#[trigger] set[i], pin)
}

/// Whether any of a rule's condition sets is met.
pub open spec fn applies(rule: Rule, pin: Map<Tag, Real>) -> bool {
    exists|i: int|
        0 <= i < rule.conditions@.len() && set_is_met((#[trigger] rule.conditions@[i])@, pin)
}

fn condition_holds(condition: &Condition, pin: &Location) -> (r: bool)
    ensures
        r == is_met(*condition, pin@),
{
    match pin.get(condition.axis) {
        None => false,
        Some(pos) => {
            let above: bool = match condition.min {
                Some(min) => min <= pos,
                None => true,
            };
            let below: bool = match condition.max {
                Some(max) => pos <= max,
                None => true,
            };
            above && below
        },
    }
}

fn set_holds(set: &ConditionSet, pin: &Location) -> (r: bool)
    ensures
        r == set_is_met(set@, pin@),
{
    let conditions: &Vec<Condition> = set.conditions();
    let mut i: usize = 0;
    while i < conditions.len()
        invariant
            i <= conditions@.len(),
            conditions@ == set@,
            forall|j: int| 0 <= j < i ==> is_met(#[trigger] set@[j], pin@),
        decreases conditions.len() - i,
    {
        if !condition_holds(&conditions[i], pin) {
            assert(!is_met(set@[i as int], pin@));
            return false;
        }
        i = i + 1;
    }
    true
}

/// Does any of `rule`'s condition sets hold at `pin`?
pub fn rule_applies(rule: &Rule, pin: &Location) -> (r: bool)
    ensures
        r == applies(*rule, pin@),
{
    let mut i: usize = 0;
    while i < rule.conditions.len()
        invariant
            i <= rule.conditions@.len(),
            forall|j: int| 0 <= j < i ==> !set_is_met((#[trigger] rule.conditions@[j])@, pin@),
        decreases rule.conditions.len() - i,
    {
        if set_holds(&rule.conditions[i], pin) {
            return true;
        }
        i = i + 1;
    }
    false
}

/// What a rule substitutes, of the first `n` substitutions, a glyph for itself
/// left out.
pub open spec fn real_substitutions(rule: Rule, n: int) -> Seq<(Seq<char>, Seq<char>)>
    decreases n,
{
    if n <= 0 {
        seq![]
    } else {
        let sub = rule.substitutions@[n - 1];
        let rest = real_substitutions(rule, n - 1);
        if sub.replace@ != sub.with@ {
            rest.push((sub.replace@, sub.with@))
        } else {
            rest
        }
    }
}

/// What the rules that apply at a pin substitute, in rule order.
pub open spec fn wanted_swaps(rules: Seq<Rule>, pin: Map<Tag, Real>) -> Seq<(Seq<char>, Seq<char>)>
    decreases rules.len(),
{
    if rules.len() == 0 {
        seq![]
    } else {
        let rest = wanted_swaps(rules.drop_last(), pin);
        if applies(rules.last(), pin) {
            rest + real_substitutions(rules.last(), rules.last().substitutions@.len() as int)
        } else {
            rest
        }
    }
}

/// `f` may say of a name that it `is` there.
pub open spec fn says<F: Fn(&String) -> bool>(f: F, name: Seq<char>, is: bool) -> bool {
    exists|s: String| s@ == name && #[trigger] call_ensures(f, (&s,), is)
}

/// Those of `swaps` that `keep` picks.
pub open spec fn kept_swaps(swaps: Seq<(Seq<char>, Seq<char>)>, keep: Seq<bool>) -> Seq<
    (Seq<char>, Seq<char>),
>
    decreases swaps.len(),
{
    if swaps.len() == 0 {
        seq![]
    } else {
        let rest = kept_swaps(swaps.drop_last(), keep);
        if keep[swaps.len() - 1] {
            rest.push(swaps.last())
        } else {
            rest
        }
    }
}

/// `keep` says of each swap whether `f` knows the glyph it replaces.
pub open spec fn answered<F: Fn(&String) -> bool>(
    f: F,
    swaps: Seq<(Seq<char>, Seq<char>)>,
    keep: Seq<bool>,
) -> bool {
    &&& keep.len() == swaps.len()
    &&& forall|i: int| 0 <= i < swaps.len() ==> says(f, swaps[i].0, #[trigger] keep[i])
}

/// The names of some swaps.
pub open spec fn swap_names(swaps: Seq<(String, String)>) -> Seq<(Seq<char>, Seq<char>)> {
    swaps.map_values(|s: (String, String)| (s.0@, s.1@))
}

/// The glyph swaps that rules ask for at `pin`, in the order to do them.
///
/// The result is a sequence of transpositions, not a substitution map: each
/// swap sees the previous swap's result. `pin` is in design space, because that
/// is the space conditions are written in. `known` filters the glyph being
/// replaced only: a missing target is for the caller to reject.
pub fn rule_swaps<F: Fn(&String) -> bool>(
    variations: &VariableFeature,
    pin: &Location,
    known: &F,
) -> (r: Vec<(String, String)>)
    requires
        forall|s: String| call_requires(*known, (&s,)),
    ensures
        exists|keep: Seq<bool>| #[trigger]
            answered(*known, wanted_swaps(variations.rules@, pin@), keep) && swap_names(r@)
                == kept_swaps(wanted_swaps(variations.rules@, pin@), keep),
{
    let mut swaps: Vec<(String, String)> = Vec::new();
    let ghost mut keep: Seq<bool> = seq![];
    let mut i: usize = 0;
    while i < variations.rules.len()
        invariant
            i <= variations.rules@.len(),
            forall|s: String| call_requires(*known, (&s,)),
            answered(*known, wanted_swaps(variations.rules@.take(i as int), pin@), keep),
            swap_names(swaps@) =~= kept_swaps(
                wanted_swaps(variations.rules@.take(i as int), pin@),
                keep,
            ),
        decreases variations.rules.len() - i,
    {
        let rule: &Rule = &variations.rules[i];
        let ghost before = wanted_swaps(variations.rules@.take(i as int), pin@);
        assert(variations.rules@.take(i + 1).drop_last() =~= variations.rules@.take(i as int));
        if rule_applies(rule, pin) {
            let mut k: usize = 0;
            assert(before + real_substitutions(*rule, 0) =~= before);
            while k < rule.substitutions.len()
                invariant
                    k <= rule.substitutions@.len(),
                    forall|s: String| call_requires(*known, (&s,)),
                    answered(*known, before + real_substitutions(*rule, k as int), keep),
                    swap_names(swaps@) =~= kept_swaps(
                        before + real_substitutions(*rule, k as int),
                        keep,
                    ),
                decreases rule.substitutions.len() - k,
            {
                let replace: &String = &rule.substitutions[k].replace;
                let with: &String = &rule.substitutions[k].with;
                let ghost so_far = before + real_substitutions(*rule, k as int);
                if *replace != *with {
                    let there: bool = known(replace);
                    let ghost was = keep;
                    proof {
                        let now = before + real_substitutions(*rule, k + 1);
                        assert(now =~= so_far.push((replace@, with@)));
                        keep = keep.push(there);
                        assert(says(*known, replace@, there));
                        assert(now.drop_last() =~= so_far);
                        lemma_kept_swaps_prefix(so_far, was, keep);
                    }
                    if there {
                        let ghost old_swaps = swaps@;
                        swaps.push((replace.clone(), with.clone()));
                        assert(swap_names(swaps@) =~= swap_names(old_swaps).push(
                            (replace@, with@),
                        ));
                    }
                }
                k = k + 1;
            }
        }
        i = i + 1;
    }
    assert(variations.rules@.take(i as int) =~= variations.rules@);
    assert(answered(*known, wanted_swaps(variations.rules@, pin@), keep));
    swaps
}

proof fn lemma_kept_swaps_prefix(
    swaps: Seq<(Seq<char>, Seq<char>)>,
    a: Seq<bool>,
    b: Seq<bool>,
)
    requires
        swaps.len() <= a.len(),
        swaps.len() <= b.len(),
        forall|i: int| 0 <= i < swaps.len() ==> a[i] == b[i],
    ensures
        kept_swaps(swaps, a) == kept_swaps(swaps, b),
    decreases swaps.len(),
{
    if swaps.len() > 0 {
        lemma_kept_swaps_prefix(swaps.drop_last(), a, b);
    }
}

/// A rule without condition sets never applies.
pub proof fn law_no_condition_sets_never_apply(rule: Rule, pin: Map<Tag, Real>)
    requires
        rule.conditions@.len() == 0,
    ensures
        !applies(rule, pin),
{
}

/// A rule with a condition set that has no conditions always applies.
pub proof fn law_empty_condition_set_always_applies(rule: Rule, i: int, pin: Map<Tag, Real>)
    requires
        0 <= i < rule.conditions@.len(),
        rule.conditions@[i]@.len() == 0,
    ensures
        applies(rule, pin),
{
    assert(set_is_met(rule.conditions@[i]@, pin));
}

/// What glyphs hold after two of them trade places.
pub open spec fn traded<C>(contents: Map<Seq<char>, C>, a: Seq<char>, b: Seq<char>) -> Map<
    Seq<char>,
    C,
> {
    contents.insert(a, contents[b]).insert(b, contents[a])
}

/// Swaps compose as transpositions do: `a` for `b` and then `b` for `c` leaves
/// `a` with what `b` held, `b` with what `c` held and `c` with what `a` held.
pub proof fn law_swaps_compose_to_a_cycle<C>(
    contents: Map<Seq<char>, C>,
    a: Seq<char>,
    b: Seq<char>,
    c: Seq<char>,
)
    requires
        contents.contains_key(a),
        contents.contains_key(b),
        contents.contains_key(c),
        a != b,
        b != c,
        a != c,
    ensures
        traded(traded(contents, a, b), b, c)[a] == contents[b],
        traded(traded(contents, a, b), b, c)[b] == contents[c],
        traded(traded(contents, a, b), b, c)[c] == contents[a],
{
}

/// A glyph that cannot be pinned, and why.
#[derive(Debug, PartialEq, Eq)]
pub struct BadGlyph {
    pub name: String,
    pub cause: String,
}

/// Which variation model a glyph is interpolated with.
#[derive(Debug, PartialEq, Eq)]
pub enum GlyphModel {
    /// The font's own.
    Global,
    /// One over just these locations.
    Own { locations: Vec<Location>, axis_order: Vec<Tag> },
}

/// Where a glyph has sources.
pub open spec fn source_places(glyph: Glyph) -> Seq<Map<Tag, Real>> {
    glyph.sources@.map_values(|s: (Location, GlyphInstance)| s.0@)
}

/// Whether a glyph is defined at exactly the locations of the font's model.
pub open spec fn is_at_every_master(static_metadata: StaticMetadata, glyph: Glyph) -> bool {
    &&& static_metadata.variation_model.locations@.len() == glyph.sources@.len()
    &&& forall|i: int|
        0 <= i < static_metadata.variation_model.locations@.len() ==> source_places(glyph).contains(
            (#[trigger] static_metadata.variation_model.locations@[i])@,
        )
}

/// `model` is the one to interpolate a glyph with: the font's own if the glyph
/// is defined at the same locations, else one of the glyph's own, so that
/// sparse glyphs interpolate from the masters they actually have.
pub open spec fn is_model_for(
    static_metadata: StaticMetadata,
    glyph: Glyph,
    model: GlyphModel,
) -> bool {
    if is_at_every_master(static_metadata, glyph) {
        model is Global
    } else {
        model matches GlyphModel::Own { locations, axis_order } && coords::places(locations@)
            == source_places(glyph) && axis_order@ == coords::tags_of(static_metadata.axes@)
    }
}

fn has_source_at(glyph: &Glyph, at: &Location) -> (r: bool)
    ensures
        r == source_places(*glyph).contains(at@),
{
    let mut i: usize = 0;
    while i < glyph.sources.len()
        invariant
            i <= glyph.sources@.len(),
            forall|j: int| 0 <= j < i ==> #[trigger] source_places(*glyph)[j] != at@,
        decreases glyph.sources.len() - i,
    {
        if glyph.sources[i].0.same(at) {
            assert(source_places(*glyph)[i as int] == at@);
            return true;
        }
        assert(source_places(*glyph)[i as int] != at@);
        i = i + 1;
    }
    false
}

/// The model to interpolate `glyph` with.
pub fn variation_model_for_glyph(static_metadata: &StaticMetadata, glyph: &Glyph) -> (r: GlyphModel)
    ensures
        is_model_for(*static_metadata, *glyph, r),
{
    let locations: &Vec<Location> = &static_metadata.variation_model.locations;
    let mut same: bool = locations.len() == glyph.sources.len();
    let mut i: usize = 0;
    while i < locations.len()
        invariant
            i <= locations@.len(),
            *locations == static_metadata.variation_model.locations,
            same <==> locations@.len() == glyph.sources@.len() && forall|j: int|
                0 <= j < i ==> source_places(*glyph).contains((#[trigger] locations@[j])@),
        decreases locations.len() - i,
    {
        if !has_source_at(glyph, &locations[i]) {
            assert(!source_places(*glyph).contains(locations@[i as int]@));
            same = false;
        }
        i = i + 1;
    }
    if same {
        return GlyphModel::Global;
    }
    let mut own: Vec<Location> = Vec::new();
    let mut k: usize = 0;
    while k < glyph.sources.len()
        invariant
            k <= glyph.sources@.len(),
            coords::places(own@) =~= source_places(*glyph).take(k as int),
        decreases glyph.sources.len() - k,
    {
        let ghost before = own@;
        own.push(glyph.sources[k].0.clone());
        assert(coords::places(own@) =~= coords::places(before).push(glyph.sources@[k as int].0@));
        k = k + 1;
    }
    assert(coords::places(own@) =~= source_places(*glyph));
    GlyphModel::Own { locations: own, axis_order: coords::axis_order(&static_metadata.axes) }
}

/// `made` is what interpolating a glyph at a location may come to.
pub open spec fn interpolates_to<
    I: Fn(&GlyphModel, &Glyph, &Location) -> Result<GlyphInstance, String>,
>(
    interpolate: I,
    static_metadata: StaticMetadata,
    glyph: Glyph,
    loc: Location,
    made: Result<GlyphInstance, String>,
) -> bool {
    exists|model: GlyphModel|
        is_model_for(static_metadata, glyph, model) && #[trigger] call_ensures(
            interpolate,
            (&model, &glyph, &loc),
            made,
        )
}

/// Interpolate a new instance of `glyph` at `loc`.
///
/// `interpolate` combines the masters themselves through a model, unrounded,
/// and takes the structure from the default instance.
pub fn interpolate_glyph_instance<
    I: Fn(&GlyphModel, &Glyph, &Location) -> Result<GlyphInstance, String>,
>(
    static_metadata: &StaticMetadata,
    glyph: &Glyph,
    loc: &Location,
    interpolate: &I,
) -> (r: Result<GlyphInstance, BadGlyph>)
    requires
        forall|model: GlyphModel| call_requires(*interpolate, (&model, glyph, loc)),
    ensures
        match r {
            Ok(made) => interpolates_to(*interpolate, *static_metadata, *glyph, *loc, Ok(made)),
            Err(bad) => bad.name@ == glyph.name@ && interpolates_to(
                *interpolate,
                *static_metadata,
                *glyph,
                *loc,
                Err(bad.cause),
            ),
        },
{
    let model: GlyphModel = variation_model_for_glyph(static_metadata, glyph);
    let made: Result<GlyphInstance, String> = interpolate(&model, glyph, loc);
    assert(interpolates_to(*interpolate, *static_metadata, *glyph, *loc, made));
    match made {
        Ok(made) => Ok(made),
        Err(cause) => Err(BadGlyph { name: glyph.name.clone(), cause }),
    }
}

/// The first source of a glyph that is at `at` once restricted to `axes`.
pub open spec fn first_source_at(
    sources: Seq<(Location, GlyphInstance)>,
    axes: Seq<Tag>,
    at: Map<Tag, Real>,
) -> Option<int>
    decreases sources.len(),
{
    if sources.len() == 0 {
        None
    } else {
        match first_source_at(sources.drop_last(), axes, at) {
            Some(i) => Some(i),
            None => if coords::fitted(sources.last().0@, axes) == at {
                Some(sources.len() - 1)
            } else {
                None
            },
        }
    }
}

/// The source of a glyph that a pin is on, if it is on one.
pub open spec fn source_at_pin(
    static_metadata: StaticMetadata,
    glyph: Glyph,
    pin: Map<Tag, Real>,
) -> Option<int> {
    let axes = coords::tags_of(static_metadata.axes@);
    first_source_at(glyph.sources@, axes, coords::fitted(pin, axes))
}

/// `pinned` is `glyph` with one source, keyed by the default location.
pub open spec fn is_glyph_with(
    static_metadata: StaticMetadata,
    glyph: Glyph,
    pinned: Glyph,
) -> bool {
    &&& pinned.name@ == glyph.name@
    &&& pinned.emit_to_binary == glyph.emit_to_binary
    &&& pinned.codepoints@ == glyph.codepoints@
    &&& pinned.sources@.len() == 1
    &&& pinned.sources@[0].0@ == static_metadata.home()
}

/// `pinned` is what may become of `glyph`: the source the pin is on, or else
/// what is interpolated there.
pub open spec fn glyph_pins_to<
    I: Fn(&GlyphModel, &Glyph, &Location) -> Result<GlyphInstance, String>,
>(
    interpolate: I,
    static_metadata: StaticMetadata,
    glyph: Glyph,
    pin: Location,
    pinned: Glyph,
) -> bool {
    &&& is_glyph_with(static_metadata, glyph, pinned)
    &&& match source_at_pin(static_metadata, glyph, pin@) {
        Some(i) => pinned.sources@[0].1.same_as(&glyph.sources@[i].1),
        None => interpolates_to(
            interpolate,
            static_metadata,
            glyph,
            pin,
            Ok(pinned.sources@[0].1),
        ),
    }
}

/// A glyph has no source at the pin, and cannot be interpolated there.
pub open spec fn glyph_fails_with<
    I: Fn(&GlyphModel, &Glyph, &Location) -> Result<GlyphInstance, String>,
>(
    interpolate: I,
    static_metadata: StaticMetadata,
    glyph: Glyph,
    pin: Location,
    bad: BadGlyph,
) -> bool {
    &&& source_at_pin(static_metadata, glyph, pin@) is None
    &&& bad.name@ == glyph.name@
    &&& interpolates_to(interpolate, static_metadata, glyph, pin, Err(bad.cause))
}

/// `glyph` reduced to its value at `pin`.
///
/// A pin on a master is a copy, not an interpolation, so a glyph whose masters
/// are incompatible can still be pinned at any of its own. A sparse glyph that
/// has no source there is interpolated from the masters it does have.
pub fn pin_glyph<I: Fn(&GlyphModel, &Glyph, &Location) -> Result<GlyphInstance, String>>(
    static_metadata: &StaticMetadata,
    glyph: &Glyph,
    pin: &Location,
    interpolate: &I,
) -> (r: Result<Glyph, BadGlyph>)
    requires
        forall|model: GlyphModel| call_requires(*interpolate, (&model, glyph, pin)),
    ensures
        match r {
            Ok(pinned) => glyph_pins_to(*interpolate, *static_metadata, *glyph, *pin, pinned),
            Err(bad) => glyph_fails_with(*interpolate, *static_metadata, *glyph, *pin, bad),
        },
{
    let axes: Vec<Tag> = coords::axis_order(&static_metadata.axes);
    let at: Location = pin.fit_to_axes(&axes);
    let mut found: Option<usize> = None;
    let mut i: usize = 0;
    while i < glyph.sources.len()
        invariant
            i <= glyph.sources@.len(),
            first_source_at(glyph.sources@.take(i as int), axes@, at@) == (match found {
                Some(k) => Some(k as int),
                None => None,
            }),
            found is Some ==> found->0 < glyph.sources@.len(),
        decreases glyph.sources.len() - i,
    {
        assert(glyph.sources@.take(i + 1).drop_last() =~= glyph.sources@.take(i as int));
        if found.is_none() && glyph.sources[i].0.fit_to_axes(&axes).same(&at) {
            found = Some(i);
        }
        i = i + 1;
    }
    assert(glyph.sources@.take(i as int) =~= glyph.sources@);
    let instance: GlyphInstance = match found {
        Some(k) => glyph.sources[k].1.clone(),
        None => match interpolate_glyph_instance(static_metadata, glyph, pin, interpolate) {
            Ok(made) => made,
            Err(bad) => return Err(bad),
        },
    };
    let mut sources: Vec<(Location, GlyphInstance)> = Vec::new();
    sources.push((static_metadata.default_location().clone(), instance));
    Ok(
        Glyph {
            name: glyph.name.clone(),
            emit_to_binary: glyph.emit_to_binary,
            codepoints: lookup::copied(&glyph.codepoints),
            sources,
        },
    )
}

/// A pin on one of a glyph's own sources never fails, and finds that source or
/// an earlier one at the same place.
pub proof fn law_pin_on_a_source_finds_it(static_metadata: StaticMetadata, glyph: Glyph, i: int)
    requires
        0 <= i < glyph.sources@.len(),
    ensures
        source_at_pin(static_metadata, glyph, glyph.sources@[i].0@) is Some,
        0 <= source_at_pin(static_metadata, glyph, glyph.sources@[i].0@)->0 <= i,
{
    let axes = coords::tags_of(static_metadata.axes@);
    lemma_first_source_at(glyph.sources@, axes, i);
}

proof fn lemma_first_source_at(sources: Seq<(Location, GlyphInstance)>, axes: Seq<Tag>, i: int)
    requires
        0 <= i < sources.len(),
    ensures
        first_source_at(sources, axes, coords::fitted(sources[i].0@, axes)) is Some,
        0 <= first_source_at(sources, axes, coords::fitted(sources[i].0@, axes))->0 <= i,
    decreases sources.len(),
{
    let at = coords::fitted(sources[i].0@, axes);
    let rest = sources.drop_last();
    if i < rest.len() {
        assert(rest[i] == sources[i]);
        lemma_first_source_at(rest, axes, i);
    } else if first_source_at(rest, axes, at) is Some {
        lemma_first_source_in_range(rest, axes, at);
    }
}

proof fn lemma_first_source_in_range(
    sources: Seq<(Location, GlyphInstance)>,
    axes: Seq<Tag>,
    at: Map<Tag, Real>,
)
    ensures
        first_source_at(sources, axes, at) matches Some(k) ==> 0 <= k < sources.len(),
    decreases sources.len(),
{
    if sources.len() > 0 {
        lemma_first_source_in_range(sources.drop_last(), axes, at);
    }
}

/// `found` is what interpolating an anchor at a pin may come to.
pub open spec fn anchor_interpolates_to<
    I: Fn(&Vec<(Location, (Real, Real))>, &Vec<Tag>, &Location) -> Result<
        Vec<(Real, Real)>,
        String,
    >,
>(
    interpolate: I,
    static_metadata: StaticMetadata,
    anchor: Anchor,
    pin: Location,
    found: Result<Vec<(Real, Real)>, String>,
) -> bool {
    exists|axes: Vec<Tag>|
        axes@ == coords::tags_of(static_metadata.axes@) && #[trigger] call_ensures(
            interpolate,
            (&anchor.positions, &axes, &pin),
            found,
        )
}

/// The first of some points, or the origin.
pub open spec fn point_or_origin(points: Seq<(Real, Real)>) -> (Real, Real) {
    if points.len() > 0 {
        points[0]
    } else {
        (0, 0)
    }
}

/// `pinned` is `anchor` at one position, keyed by the default location.
pub open spec fn is_anchor_at(
    static_metadata: StaticMetadata,
    anchor: Anchor,
    pinned: Anchor,
    pos: (Real, Real),
) -> bool {
    &&& pinned.kind@ == anchor.kind@
    &&& pinned.original_name@ == anchor.original_name@
    &&& pinned.positions@.len() == 1
    &&& pinned.positions@[0].0@ == static_metadata.home()
    &&& pinned.positions@[0].1 == pos
}

/// `pinned` is what may become of `anchor`.
pub open spec fn anchor_pins_to<
    I: Fn(&Vec<(Location, (Real, Real))>, &Vec<Tag>, &Location) -> Result<
        Vec<(Real, Real)>,
        String,
    >,
>(
    interpolate: I,
    static_metadata: StaticMetadata,
    anchor: Anchor,
    pin: Location,
    pinned: Anchor,
) -> bool {
    exists|points: Vec<(Real, Real)>| #[trigger]
        anchor_interpolates_to(interpolate, static_metadata, anchor, pin, Ok(points))
            && is_anchor_at(static_metadata, anchor, pinned, point_or_origin(points@))
}

/// `pinned` is what may become of a glyph's anchors.
pub open spec fn anchors_pin_to<
    I: Fn(&Vec<(Location, (Real, Real))>, &Vec<Tag>, &Location) -> Result<
        Vec<(Real, Real)>,
        String,
    >,
>(
    interpolate: I,
    static_metadata: StaticMetadata,
    anchors: GlyphAnchors,
    pin: Location,
    pinned: GlyphAnchors,
) -> bool {
    &&& pinned.glyph_name@ == anchors.glyph_name@
    &&& pinned.anchors@.len() == anchors.anchors@.len()
    &&& forall|i: int|
        0 <= i < pinned.anchors@.len() ==> anchor_pins_to(
            interpolate,
            static_metadata,
            anchors.anchors@[i],
            pin,
            #[trigger] pinned.anchors@[i],
        )
}

/// Whether an anchor may be interpolated.
pub open spec fn anchor_resolves<
    I: Fn(&Vec<(Location, (Real, Real))>, &Vec<Tag>, &Location) -> Result<
        Vec<(Real, Real)>,
        String,
    >,
>(interpolate: I, static_metadata: StaticMetadata, anchor: Anchor, pin: Location) -> bool {
    exists|points: Vec<(Real, Real)>| #[trigger]
        anchor_interpolates_to(interpolate, static_metadata, anchor, pin, Ok(points))
}

/// The first of these anchors that cannot be interpolated fails for this cause.
pub open spec fn anchors_fail_with<
    I: Fn(&Vec<(Location, (Real, Real))>, &Vec<Tag>, &Location) -> Result<
        Vec<(Real, Real)>,
        String,
    >,
>(
    interpolate: I,
    static_metadata: StaticMetadata,
    anchors: Seq<Anchor>,
    pin: Location,
    cause: String,
) -> bool {
    exists|i: int|
        0 <= i < anchors.len() && anchor_interpolates_to(
            interpolate,
            static_metadata,
            #[trigger] anchors[i],
            pin,
            Err(cause),
        ) && forall|k: int|
            0 <= k < i ==> anchor_resolves(
                interpolate,
                static_metadata,
                #[trigger] anchors[k],
                pin,
            )
}

/// `anchors` reduced to their positions at `pin`.
///
/// Each anchor is interpolated from its own locations, so one defined at only
/// some masters still resolves. The first that cannot be is reported.
pub fn pin_anchors<
    I: Fn(&Vec<(Location, (Real, Real))>, &Vec<Tag>, &Location) -> Result<
        Vec<(Real, Real)>,
        String,
    >,
>(
    static_metadata: &StaticMetadata,
    anchors: &GlyphAnchors,
    pin: &Location,
    interpolate: &I,
) -> (r: Result<GlyphAnchors, BadGlyph>)
    requires
        forall|positions: Vec<(Location, (Real, Real))>, axes: Vec<Tag>|
            call_requires(*interpolate, (&positions, &axes, pin)),
    ensures
        match r {
            Ok(pinned) => anchors_pin_to(*interpolate, *static_metadata, *anchors, *pin, pinned),
            Err(bad) => bad.name@ == anchors.glyph_name@ && anchors_fail_with(
                *interpolate,
                *static_metadata,
                anchors.anchors@,
                *pin,
                bad.cause,
            ),
        },
{
    let mut pinned: Vec<Anchor> = Vec::new();
    let mut i: usize = 0;
    while i < anchors.anchors.len()
        invariant
            i <= anchors.anchors@.len(),
            forall|positions: Vec<(Location, (Real, Real))>, axes: Vec<Tag>|
                call_requires(*interpolate, (&positions, &axes, pin)),
            pinned@.len() == i,
            forall|k: int|
                0 <= k < i ==> anchor_pins_to(
                    *interpolate,
                    *static_metadata,
                    anchors.anchors@[k],
                    *pin,
                    #[trigger] pinned@[k],
                ),
        decreases anchors.anchors.len() - i,
    {
        let anchor: &Anchor = &anchors.anchors[i];
        let axes: Vec<Tag> = coords::axis_order(&static_metadata.axes);
        let found: Result<Vec<(Real, Real)>, String> = interpolate(&anchor.positions, &axes, pin);
        assert(anchor_interpolates_to(
            *interpolate,
            *static_metadata,
            anchors.anchors@[i as int],
            *pin,
            found,
        ));
        let points: Vec<(Real, Real)> = match found {
            Ok(points) => points,
            Err(cause) => {
                assert forall|k: int| 0 <= k < i implies anchor_resolves(
                    *interpolate,
                    *static_metadata,
                    #[trigger] anchors.anchors@[k],
                    *pin,
                ) by {
                    assert(anchor_pins_to(
                        *interpolate,
                        *static_metadata,
                        anchors.anchors@[k],
                        *pin,
                        pinned@[k],
                    ));
                }
                return Err(BadGlyph { name: anchors.glyph_name.clone(), cause });
            },
        };
        let pos: (Real, Real) = if points.len() > 0 {
            points[0]
        } else {
            (0, 0)
        };
        let mut positions: Vec<(Location, (Real, Real))> = Vec::new();
        positions.push((static_metadata.default_location().clone(), pos));
        let made = Anchor {
            kind: anchor.kind.clone(),
            original_name: anchor.original_name.clone(),
            positions,
        };
        assert(is_anchor_at(
            *static_metadata,
            anchors.anchors@[i as int],
            made,
            point_or_origin(points@),
        ));
        pinned.push(made);
        i = i + 1;
    }
    Ok(GlyphAnchors { glyph_name: anchors.glyph_name.clone(), anchors: pinned })
}

/// The names of the numbers that a master defines.
pub open spec fn number_names(values: Seq<(String, Real)>) -> Seq<Seq<char>> {
    values.map_values(|v: (String, Real)| v.0@)
}

/// The names of the numbers that any master defines, one master after the
/// other.
pub open spec fn all_number_names(
    number_values: Seq<(Location, Vec<(String, Real)>)>,
) -> Seq<Seq<char>>
    decreases number_values.len(),
{
    if number_values.len() == 0 {
        seq![]
    } else {
        all_number_names(number_values.drop_last()) + number_names(number_values.last().1@)
    }
}

/// Where a number is defined, restricted to `axes`, and its value there.
pub open spec fn number_masters(
    number_values: Seq<(Location, Vec<(String, Real)>)>,
    axes: Seq<Tag>,
    name: Seq<char>,
) -> Seq<(Map<Tag, Real>, Real)>
    decreases number_values.len(),
{
    if number_values.len() == 0 {
        seq![]
    } else {
        let rest = number_masters(number_values.drop_last(), axes, name);
        match lookup::named(number_values.last().1@, name) {
            Some(value) => rest.push((coords::fitted(number_values.last().0@, axes), value)),
            None => rest,
        }
    }
}

/// `found` is what interpolating a number at a pin may come to.
pub open spec fn number_interpolates_to<
    I: Fn(&Vec<(Location, Real)>, &Vec<Tag>, &Location) -> Result<Option<Real>, String>,
>(
    interpolate: I,
    static_metadata: StaticMetadata,
    name: Seq<char>,
    pin: Location,
    found: Result<Option<Real>, String>,
) -> bool {
    exists|masters: Vec<(Location, Real)>, axes: Vec<Tag>|
        numeric::weighted(masters@) == number_masters(
            static_metadata.number_values@,
            coords::tags_of(static_metadata.axes@),
            name,
        ) && axes@ == coords::tags_of(static_metadata.axes@) && #[trigger] call_ensures(
            interpolate,
            (&masters, &axes, &pin),
            found,
        )
}

/// `value` is what may become of a number.
pub open spec fn number_pins_to<
    I: Fn(&Vec<(Location, Real)>, &Vec<Tag>, &Location) -> Result<Option<Real>, String>,
>(
    interpolate: I,
    static_metadata: StaticMetadata,
    name: Seq<char>,
    pin: Location,
    value: Real,
) -> bool {
    exists|found: Option<Real>| #[trigger]
        number_interpolates_to(interpolate, static_metadata, name, pin, Ok(found)) && value == (
        match found {
            Some(v) => v,
            None => 0,
        })
}

/// `r` is what may become of the named numbers of a font at a pin: nothing if
/// there are none, else each of them once, keyed by the default location.
pub open spec fn numbers_pin_to<
    I: Fn(&Vec<(Location, Real)>, &Vec<Tag>, &Location) -> Result<Option<Real>, String>,
>(
    interpolate: I,
    static_metadata: StaticMetadata,
    pin: Location,
    r: Seq<(Location, Vec<(String, Real)>)>,
) -> bool {
    if static_metadata.number_values@.len() == 0 {
        r.len() == 0
    } else {
        &&& r.len() == 1
        &&& r[0].0@ == static_metadata.home()
        &&& number_names(r[0].1@) == lookup::first_seen(
            all_number_names(static_metadata.number_values@),
        )
        &&& forall|i: int|
            0 <= i < r[0].1@.len() ==> number_pins_to(
                interpolate,
                static_metadata,
                (#[trigger] r[0].1@[i]).0@,
                pin,
                r[0].1@[i].1,
            )
    }
}

/// Whether a number may be interpolated.
pub open spec fn number_resolves<
    I: Fn(&Vec<(Location, Real)>, &Vec<Tag>, &Location) -> Result<Option<Real>, String>,
>(interpolate: I, static_metadata: StaticMetadata, name: Seq<char>, pin: Location) -> bool {
    exists|found: Option<Real>| #[trigger]
        number_interpolates_to(interpolate, static_metadata, name, pin, Ok(found))
}

/// The first number of the font that cannot be interpolated fails for this
/// cause.
pub open spec fn numbers_fail_with<
    I: Fn(&Vec<(Location, Real)>, &Vec<Tag>, &Location) -> Result<Option<Real>, String>,
>(interpolate: I, static_metadata: StaticMetadata, pin: Location, cause: String) -> bool {
    let names = lookup::first_seen(all_number_names(static_metadata.number_values@));
    exists|i: int|
        0 <= i < names.len() && number_interpolates_to(
            interpolate,
            static_metadata,
            #[trigger] names[i],
            pin,
            Err(cause),
        ) && forall|k: int|
            0 <= k < i ==> number_resolves(
                interpolate,
                static_metadata,
                #[trigger] names[k],
                pin,
            )
}

fn push_name(names: &mut Vec<String>, name: &String)
    ensures
        text::texts(final(names)@) == (if text::texts(old(names)@).contains(name@) {
            text::texts(old(names)@)
        } else {
            text::texts(old(names)@).push(name@)
        }),
{
    let mut i: usize = 0;
    while i < names.len()
        invariant
            i <= names@.len(),
            *names == *old(names),
            forall|j: int| 0 <= j < i ==> #[trigger] text::texts(names@)[j] != name@,
        decreases names.len() - i,
    {
        if names[i] == *name {
            assert(text::texts(names@)[i as int] == name@);
            return ;
        }
        i = i + 1;
    }
    let ghost before = names@;
    names.push(name.clone());
    assert(text::texts(names@) =~= text::texts(before).push(name@));
}

fn find_number_names(number_values: &Vec<(Location, Vec<(String, Real)>)>) -> (r: Vec<String>)
    ensures
        text::texts(r@) == lookup::first_seen(all_number_names(number_values@)),
{
    let mut r: Vec<String> = Vec::new();
    let mut i: usize = 0;
    assert(text::texts(r@) =~= lookup::first_seen(all_number_names(number_values@.take(0))));
    while i < number_values.len()
        invariant
            i <= number_values@.len(),
            text::texts(r@) == lookup::first_seen(all_number_names(number_values@.take(i as int))),
        decreases number_values.len() - i,
    {
        let values: &Vec<(String, Real)> = &number_values[i].1;
        let ghost before = all_number_names(number_values@.take(i as int));
        let ghost these = number_names(values@);
        let mut k: usize = 0;
        assert(before + these.take(0) =~= before);
        while k < values.len()
            invariant
                k <= values@.len(),
                these == number_names(values@),
                text::texts(r@) == lookup::first_seen(before + these.take(k as int)),
            decreases values.len() - k,
        {
            proof {
                let now = before + these.take(k + 1);
                assert(now.drop_last() =~= before + these.take(k as int));
                assert(now.last() == values@[k as int].0@);
            }
            push_name(&mut r, &values[k].0);
            k = k + 1;
        }
        proof {
            assert(these.take(k as int) =~= these);
            assert(number_values@.take(i + 1).drop_last() =~= number_values@.take(i as int));
            assert(number_values@.take(i + 1).last() == number_values@[i as int]);
        }
        i = i + 1;
    }
    assert(number_values@.take(i as int) =~= number_values@);
    r
}

/// Named numbers of masters reduced to their values at `pin`.
///
/// Each number interpolates from the masters that define it, and a master that
/// doesn't simply isn't in that number's model.
pub fn pin_number_values<
    I: Fn(&Vec<(Location, Real)>, &Vec<Tag>, &Location) -> Result<Option<Real>, String>,
>(
    static_metadata: &StaticMetadata,
    pin: &Location,
    interpolate: &I,
) -> (r: Result<Vec<(Location, Vec<(String, Real)>)>, String>)
    requires
        forall|masters: Vec<(Location, Real)>, axes: Vec<Tag>|
            call_requires(*interpolate, (&masters, &axes, pin)),
    ensures
        match r {
            Ok(values) => numbers_pin_to(*interpolate, *static_metadata, *pin, values@),
            Err(cause) => numbers_fail_with(*interpolate, *static_metadata, *pin, cause),
        },
{
    let number_values: &Vec<(Location, Vec<(String, Real)>)> = &static_metadata.number_values;
    if number_values.len() == 0 {
        return Ok(Vec::new());
    }
    let names: Vec<String> = find_number_names(number_values);
    let ghost all = lookup::first_seen(all_number_names(number_values@));
    let mut pinned: Vec<(String, Real)> = Vec::new();
    let mut n: usize = 0;
    while n < names.len()
        invariant
            n <= names@.len(),
            *number_values == static_metadata.number_values,
            all == lookup::first_seen(all_number_names(number_values@)),
            all == text::texts(names@),
            forall|masters: Vec<(Location, Real)>, axes: Vec<Tag>|
                call_requires(*interpolate, (&masters, &axes, pin)),
            number_names(pinned@) =~= all.take(n as int),
            forall|i: int|
                0 <= i < pinned@.len() ==> number_pins_to(
                    *interpolate,
                    *static_metadata,
                    (#[trigger] pinned@[i]).0@,
                    *pin,
                    pinned@[i].1,
                ),
        decreases names.len() - n,
    {
        let name: &String = &names[n];
        assert(all[n as int] == name@);
        let axes: Vec<Tag> = coords::axis_order(&static_metadata.axes);
        let mut masters: Vec<(Location, Real)> = Vec::new();
        let mut i: usize = 0;
        while i < number_values.len()
            invariant
                i <= number_values@.len(),
                numeric::weighted(masters@) =~= number_masters(
                    number_values@.take(i as int),
                    axes@,
                    name@,
                ),
            decreases number_values.len() - i,
        {
            assert(number_values@.take(i + 1).drop_last() =~= number_values@.take(i as int));
            if let Some(k) = lookup::find_named(&number_values[i].1, name) {
                let ghost before = masters@;
                masters.push((number_values[i].0.fit_to_axes(&axes), number_values[i].1[k].1));
                assert(numeric::weighted(masters@) =~= numeric::weighted(before).push(
                    (
                        coords::fitted(number_values@[i as int].0@, axes@),
                        number_values@[i as int].1@[k as int].1,
                    ),
                ));
            }
            i = i + 1;
        }
        assert(number_values@.take(i as int) =~= number_values@);
        let found: Result<Option<Real>, String> = interpolate(&masters, &axes, pin);
        assert(number_interpolates_to(*interpolate, *static_metadata, name@, *pin, found));
        let value: Real = match found {
            Ok(Some(v)) => v,
            Ok(None) => 0,
            Err(cause) => {
                assert(number_interpolates_to(
                    *interpolate,
                    *static_metadata,
                    all[n as int],
                    *pin,
                    Err(cause),
                ));
                assert forall|k: int| 0 <= k < n implies number_resolves(
                    *interpolate,
                    *static_metadata,
                    #[trigger] all[k],
                    *pin,
                ) by {
                    assert(number_names(pinned@).len() == n);
                    assert(number_names(pinned@)[k] == all.take(n as int)[k]);
                    assert(number_pins_to(
                        *interpolate,
                        *static_metadata,
                        pinned@[k].0@,
                        *pin,
                        pinned@[k].1,
                    ));
                }
                return Err(cause);
            },
        };
        let ghost before = pinned@;
        pinned.push((name.clone(), value));
        assert(number_names(pinned@) =~= number_names(before).push(name@));
        n = n + 1;
    }
    assert(number_names(pinned@) =~= all);
    let mut r: Vec<(Location, Vec<(String, Real)>)> = Vec::new();
    r.push((static_metadata.default_location().clone(), pinned));
    Ok(r)
}

/// A style name is anything without an equals sign, with the white space around
/// it trimmed off, and nothing but white space is no instance at all.
pub proof fn law_names_have_no_equals_sign<P: Fn(&String) -> Option<Real>>(
    p: P,
    front: Seq<char>,
    name: Seq<char>,
    back: Seq<char>,
    r: Result<InstanceSpec, InstanceSpecError>,
)
    requires
        forall|i: int| 0 <= i < front.len() ==> text::is_white(#[trigger] front[i]),
        forall|i: int| 0 <= i < back.len() ==> text::is_white(#[trigger] back[i]),
        name.len() > 0 ==> !text::is_white(name[0]) && !text::is_white(name.last()),
        !name.contains('='),
        spec_reads_as(p, front + name + back, r),
    ensures
        name.len() == 0 ==> r == Err::<InstanceSpec, InstanceSpecError>(InstanceSpecError::Empty),
        name.len() > 0 ==> (r matches Ok(InstanceSpec::Named(found)) && found@ == name),
{
    text::law_only_white_space_around_text_is_trimmed(front, name, back);
}

/// A term names an axis before its first equals sign and a position behind it,
/// with white space around either trimmed off. The tag is looked at first, then
/// the position, then whether the axis has been named before.
pub proof fn law_terms_name_an_axis_and_a_position<P: Fn(&String) -> Option<Real>>(
    p: P,
    positions: Seq<(Tag, Real)>,
    tag: Seq<char>,
    gap: Seq<char>,
    pos: Seq<char>,
)
    requires
        forall|i: int| 0 <= i < gap.len() ==> text::is_white(#[trigger] gap[i]),
        tag.len() > 0 && !text::is_white(tag[0]) && !text::is_white(tag.last()),
        pos.len() > 0 && !text::is_white(pos[0]) && !text::is_white(pos.last()),
        !tag.contains('=') && !gap.contains('='),
    ensures
        ({
            let r = with_term(p, positions, tag + gap + seq!['='] + gap + pos);
            match coords::tag_spelled(tag) {
                Err(cause) => r == Err::<Seq<(Tag, Real)>, SpecProblem>(
                    SpecProblem::InvalidTag(tag, cause),
                ),
                Ok(found) => match numeric::number_in(p, pos) {
                    None => r == Err::<Seq<(Tag, Real)>, SpecProblem>(
                        SpecProblem::InvalidPosition(found, pos),
                    ),
                    Some(at) => {
                        &&& (exists|i: int|
                            0 <= i < positions.len() && (#[trigger] positions[i]).0 == found) ==> r
                            == Err::<Seq<(Tag, Real)>, SpecProblem>(
                            SpecProblem::DuplicateAxis(found),
                        )
                        &&& (forall|i: int|
                            0 <= i < positions.len() ==> (#[trigger] positions[i]).0 != found) ==> r
                            == Ok::<Seq<(Tag, Real)>, SpecProblem>(positions.push((found, at)))
                    },
                },
            }
        }),
{
    let term = tag + gap + seq!['='] + gap + pos;
    let at = (tag + gap).len() as int;
    assert(term[0] == tag[0]);
    assert(term.last() == pos.last());
    text::law_only_white_space_around_text_is_trimmed(Seq::empty(), term, Seq::empty());
    assert(Seq::<char>::empty() + term + Seq::<char>::empty() =~= term);
    text::lemma_first_at(term, '=');
    assert(term[at] == '=');
    assert forall|j: int| 0 <= j < at implies term[j] != '=' by {
        if j < tag.len() {
            assert(term[j] == tag[j]);
            assert(tag.contains(tag[j]));
        } else {
            assert(term[j] == gap[j - tag.len()]);
            assert(gap.contains(gap[j - tag.len()]));
        }
    }
    assert(text::first_at(term, '=') == Some(at));
    assert(term.take(at) =~= Seq::<char>::empty() + tag + gap);
    assert(term.skip(at + 1) =~= gap + pos + Seq::<char>::empty());
    text::law_only_white_space_around_text_is_trimmed(Seq::empty(), tag, gap);
    text::law_only_white_space_around_text_is_trimmed(gap, pos, Seq::empty());
}

/// A term without an equals sign is no position, and what comes behind a term
/// that is wrong does not count.
pub proof fn law_the_first_wrong_term_counts<P: Fn(&String) -> Option<Real>>(
    p: P,
    terms: Seq<Seq<char>>,
    term: Seq<char>,
    positions: Seq<(Tag, Real)>,
)
    ensures
        positions_in(p, Seq::empty()) == Ok::<Seq<(Tag, Real)>, SpecProblem>(Seq::empty()),
        positions_in(p, terms) is Err ==> positions_in(p, terms.push(term)) == positions_in(p, terms),
        positions_in(p, terms) matches Ok(so_far) ==> positions_in(p, terms.push(term)) == with_term(
            p,
            so_far,
            term,
        ),
        !text::trimmed(term).contains('=') ==> with_term(p, positions, term) == Err::<
            Seq<(Tag, Real)>,
            SpecProblem,
        >(SpecProblem::NotAnAxisPosition(text::trimmed(term))),
{
    assert(terms.push(term).drop_last() =~= terms);
    text::lemma_first_at(text::trimmed(term), '=');
    if !text::trimmed(term).contains('=') {
        match text::first_at(text::trimmed(term), '=') {
            Some(i) => {
                assert(text::trimmed(term)[i] == '=');
            },
            None => {},
        }
    }
}

/// A location in full is where it was asked to be on each axis, and at the
/// default of every axis that nobody asked about.
pub proof fn law_axes_not_asked_about_are_at_their_defaults(
    axes: Seq<Axis>,
    asked_for: Map<Tag, Real>,
    i: int,
)
    requires
        0 <= i < axes.len(),
        forall|a: int, b: int| 0 <= a < b < axes.len() ==> axes[a].tag != axes[b].tag,
    ensures
        completed(axes, asked_for).contains_key(axes[i].tag),
        asked_for.contains_key(axes[i].tag) ==> completed(axes, asked_for)[axes[i].tag]
            == asked_for[axes[i].tag],
        !asked_for.contains_key(axes[i].tag) ==> completed(axes, asked_for)[axes[i].tag]
            == axes[i].default,
    decreases axes.len(),
{
    let last = axes.len() - 1;
    if i < last {
        let rest = axes.drop_last();
        assert(rest[i] == axes[i]);
        assert forall|a: int, b: int| 0 <= a < b < rest.len() implies rest[a].tag != rest[b].tag by {
            assert(axes[a].tag != axes[b].tag);
        }
        law_axes_not_asked_about_are_at_their_defaults(rest, asked_for, i);
        assert(axes[i].tag != axes[last].tag);
    }
}

/// An instance is found by its exact name, the first of that name, and none is
/// found exactly if none has it.
pub proof fn law_instances_are_found_by_name(
    instances: Seq<NamedInstance>,
    name: Seq<char>,
    k: int,
)
    ensures
        instance_named(instances, name) is None <==> forall|i: int|
            0 <= i < instances.len() ==> (#[trigger] instances[i]).name@ != name,
        0 <= k < instances.len() && instances[k].name@ == name && (forall|i: int|
            0 <= i < k ==> (#[trigger] instances[i]).name@ != name) ==> instance_named(
            instances,
            name,
        ) == Some(k),
    decreases instances.len(),
{
    if instances.len() > 0 {
        let rest = instances.drop_last();
        law_instances_are_found_by_name(rest, name, k);
        assert forall|i: int| 0 <= i < rest.len() implies rest[i] == #[trigger] instances[i] by {}
        assert(instances[instances.len() - 1] == instances.last());
        if forall|i: int| 0 <= i < rest.len() ==> (#[trigger] rest[i]).name@ != name {
            assert forall|i: int| 0 <= i < instances.len() - 1 implies (
            #[trigger] instances[i]).name@ != name by {
                assert(rest[i] == instances[i]);
            }
        } else {
            let i = choose|i: int| 0 <= i < rest.len() && (#[trigger] rest[i]).name@ == name;
            assert(instances[i].name@ == name);
        }
        if 0 <= k < rest.len() {
            assert(rest[k] == instances[k]);
        }
    }
}

/// A location resolves exactly if each position that it names is on an axis of
/// the font and between its ends, which count as inside. Nothing is moved: what
/// comes of it is where it was asked to be.
pub proof fn law_positions_are_never_moved(
    static_metadata: StaticMetadata,
    at: Location,
    r: Result<Location, PinError>,
    t: Tag,
)
    requires
        static_metadata.axes@.len() > 0,
        forall|a: int, b: int|
            0 <= a < b < static_metadata.axes@.len() ==> static_metadata.axes@[a].tag
                != static_metadata.axes@[b].tag,
        resolves_to(static_metadata, InstanceSpec::Location(at), r),
    ensures
        at@.contains_key(t) && r is Ok ==> exists|i: int|
            0 <= i < static_metadata.axes@.len() && (#[trigger] static_metadata.axes@[i]).tag == t
                && static_metadata.axes@[i].min <= at@[t] && at@[t] <= static_metadata.axes@[i].max,
        at@.contains_key(t) && r is Ok ==> r->Ok_0@.contains_key(t) && r->Ok_0@[t] == at@[t],
        (forall|u: Tag| #[trigger]
            at@.contains_key(u) ==> exists|i: int|
                0 <= i < static_metadata.axes@.len() && (#[trigger] static_metadata.axes@[i]).tag
                    == u && static_metadata.axes@[i].min <= at@[u] && at@[u]
                    <= static_metadata.axes@[i].max) ==> r is Ok,
{
    let axes = static_metadata.axes@;
    coords::lemma_axis_with(axes, t);
    law_resolved_locations_are_complete(axes, at@, t);
    if r is Ok && at@.contains_key(t) {
        assert(is_available(axes, t, at@[t]));
        let i = coords::axis_with(axes, t)->0;
        assert(axes[i].tag == t);
        assert(coords::tags_of(axes)[i] == t);
    }
    if r is Err && (forall|u: Tag| #[trigger]
        at@.contains_key(u) ==> exists|i: int|
            0 <= i < axes.len() && (#[trigger] axes[i]).tag == u && axes[i].min <= at@[u] && at@[u]
                <= axes[i].max) {
        let u = choose|u: Tag| is_first_unavailable(axes, at@, u, r->Err_0);
        assert(at@.contains_key(u));
        let i = choose|i: int|
            0 <= i < axes.len() && (#[trigger] axes[i]).tag == u && axes[i].min <= at@[u] && at@[u]
                <= axes[i].max;
        coords::lemma_axis_with(axes, u);
        let k = coords::axis_with(axes, u)->0;
        assert(k == i) by {
            if k < i {
                assert(axes[k].tag != axes[i].tag);
            } else if i < k {
                assert(axes[i].tag != axes[k].tag);
            }
        }
    }
}

/// Of a location that does not resolve, the position with the least tag that is
/// wrong is reported: the axis if the font does not have it, and otherwise how
/// far it reaches.
pub proof fn law_the_least_wrong_axis_is_reported(
    static_metadata: StaticMetadata,
    at: Location,
    e: PinError,
)
    requires
        static_metadata.axes@.len() > 0,
        resolves_to(static_metadata, InstanceSpec::Location(at), Err(e)),
    ensures
        match e {
            PinError::UnknownAxis { tag, .. } => at@.contains_key(tag) && forall|i: int|
                0 <= i < static_metadata.axes@.len() ==> (#[trigger] static_metadata.axes@[i]).tag
                    != tag,
            PinError::AxisOutOfRange { tag, pos, min, max } => {
                &&& at@.contains_key(tag) && at@[tag] == pos
                &&& pos < min || pos > max
                &&& exists|i: int|
                    0 <= i < static_metadata.axes@.len() && (
                    #[trigger] static_metadata.axes@[i]).tag == tag && static_metadata.axes@[i].min
                        == min && static_metadata.axes@[i].max == max
            },
            _ => false,
        },
{
    let axes = static_metadata.axes@;
    let u = choose|u: Tag| is_first_unavailable(axes, at@, u, e);
    coords::lemma_axis_with(axes, u);
    if let Some(i) = coords::axis_with(axes, u) {
        assert(axes[i].tag == u);
    }
}

/// A font without axes has no instances to build. In any other, a named
/// instance is at its own location in full, and the first of its name counts; a
/// name that no instance has is reported.
pub proof fn law_named_instances_are_at_their_locations(
    static_metadata: StaticMetadata,
    name: String,
    r: Result<Location, PinError>,
    k: int,
)
    requires
        resolves_to(static_metadata, InstanceSpec::Named(name), r),
    ensures
        static_metadata.axes@.len() == 0 ==> r == Err::<Location, PinError>(
            PinError::RequiresVariableSource,
        ),
        static_metadata.axes@.len() > 0 && (forall|i: int|
            0 <= i < static_metadata.named_instances@.len() ==> (
            #[trigger] static_metadata.named_instances@[i]).name@ != name@) ==> (r matches Err(
            PinError::UnknownInstance { name: unknown, .. },
        ) && unknown@ == name@),
        static_metadata.axes@.len() > 0 && 0 <= k < static_metadata.named_instances@.len()
            && static_metadata.named_instances@[k].name@ == name@ && (forall|i: int|
            0 <= i < k ==> (#[trigger] static_metadata.named_instances@[i]).name@ != name@) ==> (
        r matches Ok(at) && at@ == completed(
            static_metadata.axes@,
            static_metadata.named_instances@[k].location@,
        )),
{
    law_instances_are_found_by_name(static_metadata.named_instances@, name@, k);
}

proof fn lemma_first_normalized_is_the_first(
    normalized: Seq<Option<Location>>,
    pin: Map<Tag, Real>,
)
    ensures
        match first_normalized(normalized, pin) {
            Some(k) => 0 <= k < normalized.len() && (normalized[k] matches Some(at) && at@ == pin)
                && forall|i: int|
                0 <= i < k ==> !((#[trigger] normalized[i]) matches Some(at) && at@ == pin),
            None => forall|i: int|
                0 <= i < normalized.len() ==> !((#[trigger] normalized[i]) matches Some(at) && at@
                    == pin),
        },
    decreases normalized.len(),
{
    if normalized.len() > 0 {
        let rest = normalized.drop_last();
        lemma_first_normalized_is_the_first(rest, pin);
        assert forall|i: int| 0 <= i < rest.len() implies rest[i] == #[trigger] normalized[i] by {}
    }
}

/// A pin builds the instance that it names, wherever that is. A pin that is a
/// location builds the first instance that is at the very same place, and none
/// if there is no such instance.
pub proof fn law_a_name_wins_over_a_place(
    instances: Seq<NamedInstance>,
    spec: InstanceSpec,
    pin: Map<Tag, Real>,
    normalized: Seq<Option<Location>>,
    k: int,
)
    requires
        normalized.len() == instances.len(),
    ensures
        spec matches InstanceSpec::Named(name) ==> 0 <= k < instances.len() && instances[k].name@
            == name@ && (forall|i: int|
            0 <= i < k ==> (#[trigger] instances[i]).name@ != name@) ==> instance_at(
            instances,
            spec,
            pin,
            normalized,
        ) == Some(k),
        spec is Location && 0 <= k < instances.len() && (normalized[k] matches Some(at) && at@
            == pin) && (forall|i: int|
            0 <= i < k ==> !((#[trigger] normalized[i]) matches Some(at) && at@ == pin))
            ==> instance_at(instances, spec, pin, normalized) == Some(k),
        spec is Location && (forall|i: int|
            0 <= i < normalized.len() ==> !((#[trigger] normalized[i]) matches Some(at) && at@
                == pin)) ==> instance_at(instances, spec, pin, normalized) is None,
{
    if let InstanceSpec::Named(name) = spec {
        law_instances_are_found_by_name(instances, name@, k);
    }
    lemma_first_normalized_is_the_first(normalized, pin);
    if let Some(f) = first_normalized(normalized, pin) {
        assert(normalized[f] matches Some(at) && at@ == pin);
        if 0 <= k < instances.len() && f < k {
            assert(normalized[f] matches Some(at) && at@ == pin);
        }
    }
}

/// A condition is met from its lower to its upper bound, both of which count, a
/// bound that is not stated reaching as far as need be, and never on an axis
/// that the pin is not on.
pub proof fn law_conditions_are_met_between_their_bounds(
    condition: Condition,
    pin: Map<Tag, Real>,
)
    ensures
        !pin.contains_key(condition.axis) ==> !is_met(condition, pin),
        pin.contains_key(condition.axis) ==> (is_met(condition, pin) <==> !(condition.min is Some
            && pin[condition.axis] < condition.min->0) && !(condition.max is Some
            && pin[condition.axis] > condition.max->0)),
{
}

/// A rule applies if all conditions of one of its sets are met, and does not if
/// each of its sets has a condition that is not.
pub proof fn law_one_set_met_throughout_is_enough(
    rule: Rule,
    pin: Map<Tag, Real>,
    s: int,
    unmet: spec_fn(int) -> int,
)
    ensures
        0 <= s < rule.conditions@.len() && (forall|c: int|
            0 <= c < rule.conditions@[s]@.len() ==> is_met(
                #[trigger] rule.conditions@[s]@[c],
                pin,
            )) ==> applies(rule, pin),
        (forall|k: int|
            0 <= k < rule.conditions@.len() ==> 0 <= unmet(k) < (
            #[trigger] rule.conditions@[k])@.len() && !is_met(rule.conditions@[k]@[unmet(k)], pin))
            ==> !applies(rule, pin),
{
    if 0 <= s < rule.conditions@.len() && (forall|c: int|
        0 <= c < rule.conditions@[s]@.len() ==> is_met(#[trigger] rule.conditions@[s]@[c], pin)) {
        assert(set_is_met(rule.conditions@[s]@, pin));
    }
    if applies(rule, pin) {
        let k = choose|k: int|
            0 <= k < rule.conditions@.len() && set_is_met((#[trigger] rule.conditions@[k])@, pin);
        if 0 <= unmet(k) < rule.conditions@[k]@.len() {
            assert(is_met(rule.conditions@[k]@[unmet(k)], pin));
        }
    }
}

/// What a rule that applies substitutes is wanted behind what the rules before
/// it want, each substitution in order, but for that of a glyph for itself. A
/// rule that does not apply wants nothing.
pub proof fn law_rules_that_apply_want_their_substitutions(
    rules: Seq<Rule>,
    rule: Rule,
    pin: Map<Tag, Real>,
    n: int,
)
    ensures
        wanted_swaps(Seq::empty(), pin).len() == 0,
        !applies(rule, pin) ==> wanted_swaps(rules.push(rule), pin) == wanted_swaps(rules, pin),
        applies(rule, pin) ==> wanted_swaps(rules.push(rule), pin) == wanted_swaps(rules, pin)
            + real_substitutions(rule, rule.substitutions@.len() as int),
        real_substitutions(rule, 0).len() == 0,
        0 < n <= rule.substitutions@.len() ==> real_substitutions(rule, n) == if rule.substitutions@[n
            - 1].replace@ == rule.substitutions@[n - 1].with@ {
            real_substitutions(rule, n - 1)
        } else {
            real_substitutions(rule, n - 1).push(
                (rule.substitutions@[n - 1].replace@, rule.substitutions@[n - 1].with@),
            )
        },
{
    assert(rules.push(rule).drop_last() =~= rules);
}

/// Of the swaps that are wanted, those whose glyph to be replaced is known are
/// done, in order, and no others.
pub proof fn law_swaps_of_unknown_glyphs_are_left_out(
    swaps: Seq<(Seq<char>, Seq<char>)>,
    keep: Seq<bool>,
    swap: (Seq<char>, Seq<char>),
    known: bool,
)
    requires
        keep.len() == swaps.len(),
    ensures
        kept_swaps(Seq::empty(), Seq::empty()).len() == 0,
        kept_swaps(swaps.push(swap), keep.push(known)) == if known {
            kept_swaps(swaps, keep).push(swap)
        } else {
            kept_swaps(swaps, keep)
        },
{
    assert(swaps.push(swap).drop_last() =~= swaps);
    lemma_kept_swaps_read_their_flags(swaps, keep, keep.push(known));
}

proof fn lemma_kept_swaps_read_their_flags(
    swaps: Seq<(Seq<char>, Seq<char>)>,
    keep: Seq<bool>,
    longer: Seq<bool>,
)
    requires
        swaps.len() <= keep.len(),
        swaps.len() <= longer.len(),
        forall|i: int| 0 <= i < swaps.len() ==> keep[i] == longer[i],
    ensures
        kept_swaps(swaps, keep) == kept_swaps(swaps, longer),
    decreases swaps.len(),
{
    if swaps.len() > 0 {
        lemma_kept_swaps_read_their_flags(swaps.drop_last(), keep, longer);
        assert(keep[swaps.len() - 1] == longer[swaps.len() - 1]);
    }
}

/// A glyph that is drawn where every master is, and nowhere else, is
/// interpolated with the model of the font: `source` tells which of its sources
/// is where a master is.
pub proof fn law_glyphs_at_every_master_share_the_model(
    static_metadata: StaticMetadata,
    glyph: Glyph,
    model: GlyphModel,
    source: spec_fn(int) -> int,
)
    requires
        is_model_for(static_metadata, glyph, model),
        static_metadata.variation_model.locations@.len() == glyph.sources@.len(),
        forall|m: int|
            0 <= m < static_metadata.variation_model.locations@.len() ==> 0 <= source(m)
                < glyph.sources@.len() && glyph.sources@[source(m)].0@ == (
            #[trigger] static_metadata.variation_model.locations@[m])@,
    ensures
        model is Global,
{
    let masters = static_metadata.variation_model.locations@;
    let places = source_places(glyph);
    assert forall|m: int| 0 <= m < masters.len() implies places.contains(
        (#[trigger] masters[m])@,
    ) by {
        assert(places[source(m)] == masters[m]@);
    }
}

/// A glyph that is drawn at more or fewer places than the font has masters, or
/// is not drawn where one of them is, is interpolated from its own sources
/// alone, on the axes of the font.
pub proof fn law_sparse_glyphs_have_models_of_their_own(
    static_metadata: StaticMetadata,
    glyph: Glyph,
    model: GlyphModel,
    m: int,
)
    requires
        is_model_for(static_metadata, glyph, model),
        static_metadata.variation_model.locations@.len() != glyph.sources@.len() || (0 <= m
            < static_metadata.variation_model.locations@.len() && forall|s: int|
            0 <= s < glyph.sources@.len() ==> (#[trigger] glyph.sources@[s]).0@
                != static_metadata.variation_model.locations@[m]@),
    ensures
        model matches GlyphModel::Own { locations, axis_order } && locations@.len()
            == glyph.sources@.len() && axis_order@.len() == static_metadata.axes@.len() && (forall|
            s: int,
        |
            0 <= s < glyph.sources@.len() ==> (#[trigger] locations@[s])@ == glyph.sources@[s].0@)
            && forall|a: int|
            0 <= a < static_metadata.axes@.len() ==> #[trigger] axis_order@[a]
                == static_metadata.axes@[a].tag,
{
    let masters = static_metadata.variation_model.locations@;
    let places = source_places(glyph);
    if 0 <= m < masters.len() && places.contains(masters[m]@) {
        let s = choose|s: int| 0 <= s < places.len() && places[s] == masters[m]@;
        assert(glyph.sources@[s].0@ == masters[m]@);
    }
    assert(!is_at_every_master(static_metadata, glyph));
    if let GlyphModel::Own { locations, axis_order } = model {
        let listed = coords::places(locations@);
        assert(listed.len() == places.len());
        assert(places.len() == glyph.sources@.len());
        assert(listed.len() == locations@.len());
        assert forall|s: int| 0 <= s < glyph.sources@.len() implies (#[trigger] locations@[s])@
            == glyph.sources@[s].0@ by {
            assert(listed[s] == places[s]);
            assert(listed[s] == locations@[s]@);
        }
        assert(axis_order@ == coords::tags_of(static_metadata.axes@));
    }
}

proof fn lemma_first_source_is_the_first(
    sources: Seq<(Location, GlyphInstance)>,
    axes: Seq<Tag>,
    at: Map<Tag, Real>,
)
    ensures
        match first_source_at(sources, axes, at) {
            Some(k) => 0 <= k < sources.len() && coords::fitted(sources[k].0@, axes) == at && forall|
                i: int,
            |
                0 <= i < k ==> coords::fitted((#[trigger] sources[i]).0@, axes) != at,
            None => forall|i: int|
                0 <= i < sources.len() ==> coords::fitted((#[trigger] sources[i]).0@, axes) != at,
        },
    decreases sources.len(),
{
    if sources.len() > 0 {
        let rest = sources.drop_last();
        lemma_first_source_is_the_first(rest, axes, at);
        assert forall|i: int| 0 <= i < rest.len() implies rest[i] == #[trigger] sources[i] by {}
    }
}

/// A glyph that has a source where the pin is, on the axes of the font, is that
/// source, unchanged and without any interpolation. Its name, its codepoints
/// and whether it is written stay.
pub proof fn law_a_pin_on_a_source_is_that_source<
    I: Fn(&GlyphModel, &Glyph, &Location) -> Result<GlyphInstance, String>,
>(
    interpolate: I,
    static_metadata: StaticMetadata,
    glyph: Glyph,
    pin: Location,
    pinned: Glyph,
    k: int,
)
    requires
        glyph_pins_to(interpolate, static_metadata, glyph, pin, pinned),
    ensures
        pinned.name@ == glyph.name@,
        pinned.codepoints@ == glyph.codepoints@,
        pinned.emit_to_binary == glyph.emit_to_binary,
        pinned.sources@.len() == 1,
        pinned.sources@[0].0@ == static_metadata.default_location@,
        ({
            let axes = static_metadata.axes@.map_values(|a: Axis| a.tag);
            0 <= k < glyph.sources@.len() && coords::fitted(glyph.sources@[k].0@, axes)
                == coords::fitted(pin@, axes) && (forall|i: int|
                0 <= i < k ==> coords::fitted((#[trigger] glyph.sources@[i]).0@, axes)
                    != coords::fitted(pin@, axes)) ==> {
                &&& pinned.sources@[0].1.width == glyph.sources@[k].1.width
                &&& pinned.sources@[0].1.height == glyph.sources@[k].1.height
                &&& pinned.sources@[0].1.vertical_origin == glyph.sources@[k].1.vertical_origin
                &&& pinned.sources@[0].1.contours@.len() == glyph.sources@[k].1.contours@.len()
                &&& forall|c: int|
                    0 <= c < glyph.sources@[k].1.contours@.len() ==> (
                    #[trigger] pinned.sources@[0].1.contours@[c])@
                        == glyph.sources@[k].1.contours@[c]@
                &&& pinned.sources@[0].1.components@.len() == glyph.sources@[k].1.components@.len()
            }
        }),
{
    let axes = static_metadata.axes@.map_values(|a: Axis| a.tag);
    assert(axes =~= coords::tags_of(static_metadata.axes@));
    lemma_first_source_is_the_first(glyph.sources@, axes, coords::fitted(pin@, axes));
}

/// A glyph is interpolated only where it has no source, and fails only there.
pub proof fn law_only_glyphs_without_a_source_can_fail<
    I: Fn(&GlyphModel, &Glyph, &Location) -> Result<GlyphInstance, String>,
>(
    interpolate: I,
    static_metadata: StaticMetadata,
    glyph: Glyph,
    pin: Location,
    bad: BadGlyph,
    i: int,
)
    requires
        glyph_fails_with(interpolate, static_metadata, glyph, pin, bad),
        0 <= i < glyph.sources@.len(),
    ensures
        bad.name@ == glyph.name@,
        coords::fitted(
            glyph.sources@[i].0@,
            static_metadata.axes@.map_values(|a: Axis| a.tag),
        ) != coords::fitted(pin@, static_metadata.axes@.map_values(|a: Axis| a.tag)),
{
    let axes = static_metadata.axes@.map_values(|a: Axis| a.tag);
    assert(axes =~= coords::tags_of(static_metadata.axes@));
    lemma_first_source_is_the_first(glyph.sources@, axes, coords::fitted(pin@, axes));
}

/// Every anchor of a glyph is pinned under its own name, at one position: what
/// comes of its own positions, or the origin if nothing does.
pub proof fn law_anchors_are_pinned_one_by_one<
    I: Fn(&Vec<(Location, (Real, Real))>, &Vec<Tag>, &Location) -> Result<
        Vec<(Real, Real)>,
        String,
    >,
>(
    interpolate: I,
    static_metadata: StaticMetadata,
    anchors: GlyphAnchors,
    pin: Location,
    pinned: GlyphAnchors,
    i: int,
)
    requires
        anchors_pin_to(interpolate, static_metadata, anchors, pin, pinned),
        0 <= i < anchors.anchors@.len(),
    ensures
        pinned.glyph_name@ == anchors.glyph_name@,
        pinned.anchors@.len() == anchors.anchors@.len(),
        pinned.anchors@[i].kind@ == anchors.anchors@[i].kind@,
        pinned.anchors@[i].original_name@ == anchors.anchors@[i].original_name@,
        pinned.anchors@[i].positions@.len() == 1,
        pinned.anchors@[i].positions@[0].0@ == static_metadata.default_location@,
        exists|axes: Vec<Tag>, points: Vec<(Real, Real)>| #[trigger]
            call_ensures(interpolate, (&anchors.anchors@[i].positions, &axes, &pin), Ok(points))
                && pinned.anchors@[i].positions@[0].1 == (if points@.len() == 0 {
                (0i64, 0i64)
            } else {
                points@[0]
            }),
{
    assert(anchor_pins_to(
        interpolate,
        static_metadata,
        anchors.anchors@[i],
        pin,
        pinned.anchors@[i],
    ));
}

/// Where a number is interpolated from: each master that defines it, at its
/// place on the axes of the font and with its own value there, and no other.
pub proof fn law_numbers_come_from_the_masters_that_define_them(
    number_values: Seq<(Location, Vec<(String, Real)>)>,
    axes: Seq<Tag>,
    name: Seq<char>,
    at: Location,
    numbers: Vec<(String, Real)>,
    k: int,
)
    ensures
        number_masters(Seq::empty(), axes, name).len() == 0,
        (forall|i: int| 0 <= i < numbers@.len() ==> (#[trigger] numbers@[i]).0@ != name)
            ==> number_masters(number_values.push((at, numbers)), axes, name) == number_masters(
            number_values,
            axes,
            name,
        ),
        0 <= k < numbers@.len() && numbers@[k].0@ == name && (forall|i: int|
            0 <= i < k ==> (#[trigger] numbers@[i]).0@ != name) ==> number_masters(
            number_values.push((at, numbers)),
            axes,
            name,
        ) == number_masters(number_values, axes, name).push(
            (coords::fitted(at@, axes), numbers@[k].1),
        ),
{
    assert(number_values.push((at, numbers)).drop_last() =~= number_values);
    if forall|i: int| 0 <= i < numbers@.len() ==> (#[trigger] numbers@[i]).0@ != name {
        lookup::lemma_named_any(numbers@, name);
    }
    if 0 <= k < numbers@.len() && numbers@[k].0@ == name && (forall|i: int|
        0 <= i < k ==> (#[trigger] numbers@[i]).0@ != name) {
        lookup::lemma_named_first(numbers@, name, k);
    }
}

/// Each number that any master defines is pinned, once, at the default
/// location, and a number without a value is zero.
pub proof fn law_every_number_is_pinned_once<
    I: Fn(&Vec<(Location, Real)>, &Vec<Tag>, &Location) -> Result<Option<Real>, String>,
>(
    interpolate: I,
    static_metadata: StaticMetadata,
    pin: Location,
    r: Seq<(Location, Vec<(String, Real)>)>,
    m: int,
    n: int,
)
    requires
        numbers_pin_to(interpolate, static_metadata, pin, r),
        0 <= m < static_metadata.number_values@.len(),
        0 <= n < static_metadata.number_values@[m].1@.len(),
    ensures
        r.len() == 1,
        r[0].0@ == static_metadata.default_location@,
        exists|i: int|
            0 <= i < r[0].1@.len() && (#[trigger] r[0].1@[i]).0@
                == static_metadata.number_values@[m].1@[n].0@,
        forall|i: int, j: int|
            0 <= i < j < r[0].1@.len() ==> (#[trigger] r[0].1@[i]).0@ != (#[trigger] r[0].1@[j]).0@,
{
    let all = all_number_names(static_metadata.number_values@);
    let found = number_names(r[0].1@);
    let name = static_metadata.number_values@[m].1@[n].0@;
    lookup::lemma_first_seen_contains(all);
    lemma_all_number_names_are_there(static_metadata.number_values@, m, n);
    let a = choose|a: int| 0 <= a < all.len() && all[a] == name;
    assert(found.contains(all[a]));
    let i = choose|i: int| 0 <= i < found.len() && found[i] == name;
    assert(r[0].1@[i].0@ == name);
    assert forall|i: int, j: int| 0 <= i < j < r[0].1@.len() implies (#[trigger] r[0].1@[i]).0@ != (
    #[trigger] r[0].1@[j]).0@ by {
        assert(found[i] != found[j]);
    }
}

proof fn lemma_all_number_names_are_there(
    number_values: Seq<(Location, Vec<(String, Real)>)>,
    m: int,
    n: int,
)
    requires
        0 <= m < number_values.len(),
        0 <= n < number_values[m].1@.len(),
    ensures
        all_number_names(number_values).contains(number_values[m].1@[n].0@),
    decreases number_values.len(),
{
    let rest = number_values.drop_last();
    let front = all_number_names(rest);
    let back = number_names(number_values.last().1@);
    let name = number_values[m].1@[n].0@;
    if m < rest.len() {
        assert(rest[m] == number_values[m]);
        lemma_all_number_names_are_there(rest, m, n);
        let i = choose|i: int| 0 <= i < front.len() && front[i] == name;
        assert((front + back)[i] == name);
    } else {
        assert(back[n] == name);
        assert((front + back)[front.len() + n] == name);
    }
}

/// A list of what there is says `none` if there is nothing, and else has commas
/// between.
pub proof fn law_lists_have_commas_between(items: Seq<Seq<char>>, item: Seq<char>)
    ensures
        listed(Seq::empty()) == seq!['n', 'o', 'n', 'e'],
        listed(seq![item]) == item,
        items.len() > 0 ==> listed(items.push(item)) == listed(items) + seq![',', ' '] + item,
{
    reveal_strlit("none");
    reveal_strlit(", ");
    assert("none"@ =~= seq!['n', 'o', 'n', 'e']);
    assert(", "@ =~= seq![',', ' ']);
    let one = seq![item];
    assert(one.drop_last() =~= seq![]);
    assert(items.push(item).drop_last() =~= items);
    assert(text::joined(one, ", "@) =~= item);
}

/// A pin that is nowhere either cannot be told a position, or has one that
/// cannot be normalized, which is what it is answered then.
pub proof fn law_only_positions_that_resolve_are_normalized<
    N: Fn(&StaticMetadata, &Location) -> Result<Location, String>,
>(normalize: N, static_metadata: StaticMetadata, spec: InstanceSpec, e: PinError) -> (user:
    Location)
    requires
        is_nowhere(normalize, static_metadata, spec, e),
    ensures
        !(e is Location) ==> resolves_to(static_metadata, spec, Err(e)),
        !resolves_to(static_metadata, spec, Err(e)) ==> (e matches PinError::Location(why)
            && resolves_to(static_metadata, spec, Ok(user)) && call_ensures(
            normalize,
            (&static_metadata, &user),
            Err(why),
        )),
{
    if resolves_to(static_metadata, spec, Err(e)) {
        arbitrary()
    } else {
        let why = e->Location_0;
        choose|user: Location| #[trigger]
            is_unreachable(normalize, static_metadata, spec, user, why)
    }
}

/// A pin is somewhere if it resolves to a position and that is normalized.
pub proof fn law_a_pin_is_where_its_position_is<
    N: Fn(&StaticMetadata, &Location) -> Result<Location, String>,
>(
    normalize: N,
    static_metadata: StaticMetadata,
    spec: InstanceSpec,
    user: Location,
    at: Location,
)
    ensures
        is_at(normalize, static_metadata, spec, user, at) <==> resolves_to(
            static_metadata,
            spec,
            Ok(user),
        ) && call_ensures(normalize, (&static_metadata, &user), Ok(at)),
{
}

/// A glyph is interpolated by a model for it.
pub proof fn law_glyphs_are_interpolated_by_their_models<
    I: Fn(&GlyphModel, &Glyph, &Location) -> Result<GlyphInstance, String>,
>(
    interpolate: I,
    static_metadata: StaticMetadata,
    glyph: Glyph,
    loc: Location,
    made: Result<GlyphInstance, String>,
) -> (model: GlyphModel)
    requires
        interpolates_to(interpolate, static_metadata, glyph, loc, made),
    ensures
        is_model_for(static_metadata, glyph, model),
        call_ensures(interpolate, (&model, &glyph, &loc), made),
{
    choose|model: GlyphModel|
        is_model_for(static_metadata, glyph, model) && #[trigger] call_ensures(
            interpolate,
            (&model, &glyph, &loc),
            made,
        )
}

/// A pinned glyph keeps its name and its code points, goes into the font or
/// doesn't, and has one drawing, at the default location.
pub proof fn law_pinned_glyphs_have_one_drawing<
    I: Fn(&GlyphModel, &Glyph, &Location) -> Result<GlyphInstance, String>,
>(interpolate: I, static_metadata: StaticMetadata, glyph: Glyph, pin: Location, pinned: Glyph)
    requires
        glyph_pins_to(interpolate, static_metadata, glyph, pin, pinned),
    ensures
        pinned.name@ == glyph.name@,
        pinned.codepoints@ == glyph.codepoints@,
        pinned.emit_to_binary == glyph.emit_to_binary,
        pinned.sources@.len() == 1,
        pinned.sources@[0].0@ == static_metadata.home(),
{
}

/// A number is interpolated from the masters that define it, on the axes of the
/// font, and is zero if there is nothing to interpolate.
pub proof fn law_numbers_are_interpolated_on_the_axes_of_the_font<
    I: Fn(&Vec<(Location, Real)>, &Vec<Tag>, &Location) -> Result<Option<Real>, String>,
>(
    interpolate: I,
    static_metadata: StaticMetadata,
    name: Seq<char>,
    pin: Location,
    value: Real,
) -> (r: (Vec<(Location, Real)>, Vec<Tag>, Option<Real>))
    requires
        number_pins_to(interpolate, static_metadata, name, pin, value),
    ensures
        numeric::weighted(r.0@) == number_masters(
            static_metadata.number_values@,
            coords::tags_of(static_metadata.axes@),
            name,
        ),
        r.1@ == coords::tags_of(static_metadata.axes@),
        call_ensures(interpolate, (&r.0, &r.1, &pin), Ok(r.2)),
        r.2 is None ==> value == 0,
        r.2 matches Some(v) ==> value == v,
{
    let found = choose|found: Option<Real>| #[trigger]
        number_interpolates_to(interpolate, static_metadata, name, pin, Ok(found)) && value == (
        match found {
            Some(v) => v,
            None => 0,
        });
    let (masters, axes) = choose|masters: Vec<(Location, Real)>, axes: Vec<Tag>|
        numeric::weighted(masters@) == number_masters(
            static_metadata.number_values@,
            coords::tags_of(static_metadata.axes@),
            name,
        ) && axes@ == coords::tags_of(static_metadata.axes@) && #[trigger] call_ensures(
            interpolate,
            (&masters, &axes, &pin),
            Ok(found),
        );
    (masters, axes, found)
}

/// Numbers are gathered by name, master by master and within a master in order.
pub proof fn law_names_of_numbers_are_gathered_master_by_master(
    number_values: Seq<(Location, Vec<(String, Real)>)>,
    values: (Location, Vec<(String, Real)>),
    i: int,
)
    ensures
        all_number_names(Seq::empty()).len() == 0,
        all_number_names(number_values.push(values)).len() == all_number_names(number_values).len()
            + values.1@.len(),
        all_number_names(number_values.push(values)).take(
            all_number_names(number_values).len() as int,
        ) == all_number_names(number_values),
        0 <= i < values.1@.len() ==> all_number_names(number_values.push(values))[all_number_names(
            number_values,
        ).len() + i] == values.1@[i].0@,
{
    assert(number_values.push(values).drop_last() =~= number_values);
    assert(all_number_names(number_values.push(values)).take(
        all_number_names(number_values).len() as int,
    ) =~= all_number_names(number_values));
}

/// Numbers fail at the first, in the order they are gathered, that cannot be
/// interpolated, and here is which.
pub proof fn law_the_first_bad_number_ends_pinning<
    I: Fn(&Vec<(Location, Real)>, &Vec<Tag>, &Location) -> Result<Option<Real>, String>,
>(interpolate: I, static_metadata: StaticMetadata, pin: Location, cause: String, k: int) -> (i: int)
    requires
        numbers_fail_with(interpolate, static_metadata, pin, cause),
    ensures
        ({
            let names = lookup::first_seen(all_number_names(static_metadata.number_values@));
            &&& 0 <= i < names.len()
            &&& number_interpolates_to(interpolate, static_metadata, names[i], pin, Err(cause))
            &&& 0 <= k < i ==> number_resolves(interpolate, static_metadata, names[k], pin)
        }),
{
    let names = lookup::first_seen(all_number_names(static_metadata.number_values@));
    choose|i: int|
        0 <= i < names.len() && number_interpolates_to(
            interpolate,
            static_metadata,
            #[trigger] names[i],
            pin,
            Err(cause),
        ) && forall|k: int|
            0 <= k < i ==> number_resolves(
                interpolate,
                static_metadata,
                #[trigger] names[k],
                pin,
            )
}

/// Whether a swap is kept is asked of the glyph that it replaces.
pub proof fn law_swaps_are_kept_by_the_glyph_they_replace<F: Fn(&String) -> bool>(
    f: F,
    swaps: Seq<(Seq<char>, Seq<char>)>,
    keep: Seq<bool>,
    i: int,
) -> (name: String)
    requires
        answered(f, swaps, keep),
        0 <= i < swaps.len(),
    ensures
        keep.len() == swaps.len(),
        name@ == swaps[i].0,
        call_ensures(f, (&name,), keep[i]),
{
    assert(says(f, swaps[i].0, keep[i]));
    choose|s: String| s@ == swaps[i].0 && #[trigger] call_ensures(f, (&s,), keep[i])
}

/// The metrics of an instance are those that a named instance there states, or
/// none if there is no such instance.
pub proof fn law_metrics_come_from_the_instance_that_is_there<
    N: Fn(&StaticMetadata, &Location) -> Result<Location, String>,
>(
    normalize: N,
    static_metadata: StaticMetadata,
    spec: InstanceSpec,
    pin: Map<Tag, Real>,
    metrics: Seq<(GlobalMetric, Real)>,
) -> (places: Seq<Option<Location>>)
    requires
        has_metrics_of_instance(normalize, static_metadata, spec, pin, metrics),
    ensures
        are_instance_places(normalize, static_metadata, places),
        instance_at(static_metadata.named_instances@, spec, pin, places) is None ==> metrics.len()
            == 0,
        instance_at(static_metadata.named_instances@, spec, pin, places) matches Some(i) ==> metrics
            == static_metadata.named_instances@[i].overrides.metrics@,
{
    let ni = choose|ni: Option<NamedInstance>| #[trigger]
        may_build(normalize, static_metadata, spec, pin, ni) && metrics == (match ni {
            Some(ni) => ni.overrides.metrics@,
            None => Seq::empty(),
        });
    choose|places: Seq<Option<Location>>| #[trigger]
        are_instance_places(normalize, static_metadata, places) && ni == (match instance_at(
            static_metadata.named_instances@,
            spec,
            pin,
            places,
        ) {
            Some(i) => Some(static_metadata.named_instances@[i]),
            None => None,
        })
}

/// A named instance is where its location is, completed with the defaults of
/// axes that it does not mention, and nowhere if that cannot be normalized.
pub proof fn law_instances_are_where_their_locations_are<
    N: Fn(&StaticMetadata, &Location) -> Result<Location, String>,
>(normalize: N, static_metadata: StaticMetadata, places: Seq<Option<Location>>, i: int) -> (r: (
    Location,
    Result<Location, String>,
))
    requires
        are_instance_places(normalize, static_metadata, places),
        0 <= i < static_metadata.named_instances@.len(),
    ensures
        places.len() == static_metadata.named_instances@.len(),
        r.0@ == completed(static_metadata.axes@, static_metadata.named_instances@[i].location@),
        call_ensures(normalize, (&static_metadata, &r.0), r.1),
        r.1 is Err ==> places[i] is None,
        r.1 matches Ok(at) ==> places[i] == Some(at),
{
    assert(is_instance_place(
        normalize,
        static_metadata,
        static_metadata.named_instances@[i],
        places[i],
    ));
    choose|user: Location, found: Result<Location, String>|
        user@ == completed(static_metadata.axes@, static_metadata.named_instances@[i].location@)
            && #[trigger] call_ensures(normalize, (&static_metadata, &user), found) && places[i]
            == (match found {
            Ok(at) => Some(at),
            Err(_) => None,
        })
}

} // verus!
