//! Rewriting a whole font as one of its instances.
//!
//! [`crate::instance`] knows how to pin one value; this module knows what all
//! of them have to be rewritten to, and in which order. Kerning is pinned
//! apart from the rest, because it is not known until glyph order is.

use crate::coords;
use crate::coords::{Axis, CoordConverter, Location, Real, Tag};
use crate::glyph;
use crate::glyph::{
    Anchor, ComponentView, DrawingView, Glyph, GlyphAnchors, GlyphInstance, GlyphView, GroupView, KerningInstance,
    PairView,
};
use crate::instance;
use crate::instance::{BadGlyph, GlyphModel, InstanceSpec, PinError};
use crate::kerning;
use crate::lookup;
use crate::numeric;
use crate::pin_metadata;
use crate::pin_metadata::{NameInputs, PinArithmetic};
use crate::static_metadata;
use crate::static_metadata::{NameId, NameKey, NamedInstance, StaticMetadata};
use crate::text;
use vstd::prelude::*;
use vstd::string::*;

verus! {

/// Whether a character can be part of a word of a feature file.
pub open spec fn is_word(c: char) -> bool {
    ('a' <= c <= 'z') || ('A' <= c <= 'Z') || ('0' <= c <= '9') || c == '_' || c == '.'
}

/// Whether `word` stands at a place of a line as a whole word.
pub open spec fn is_token_at(line: Seq<char>, word: Seq<char>, at: int) -> bool {
    &&& 0 <= at
    &&& at + word.len() <= line.len()
    &&& line.subrange(at, at + word.len()) == word
    &&& at > 0 ==> !is_word(line[at - 1])
    &&& at + word.len() < line.len() ==> !is_word(line[at + word.len()])
}

/// Whether a line has `conditionset` in it as a whole word.
pub open spec fn declares(line: Seq<char>) -> bool {
    exists|at: int| is_token_at(line, "conditionset"@, at)
}

/// A line without its comment: `#` starts one that runs to the end.
pub open spec fn uncommented(line: Seq<char>) -> Seq<char> {
    match text::first_at(line, '#') {
        Some(i) => line.take(i),
        None => line,
    }
}

/// Whether any line of a feature file declares a `conditionset`.
pub open spec fn fea_declares(fea: Seq<char>) -> bool {
    exists|i: int|
        0 <= i < text::split(fea, '\n').len() && declares(
            uncommented(#[trigger] text::split(fea, '\n')[i]),
        )
}

fn is_word_char(c: char) -> (r: bool)
    ensures
        r == is_word(c),
{
    ('a' <= c && c <= 'z') || ('A' <= c && c <= 'Z') || ('0' <= c && c <= '9') || c == '_' || c
        == '.'
}

fn has_token(line: &Vec<char>, word: &Vec<char>) -> (r: bool)
    ensures
        r == exists|at: int| is_token_at(line@, word@, at),
{
    if line.len() < word.len() {
        return false;
    }
    let mut at: usize = 0;
    while at <= line.len() - word.len()
        invariant
            word@.len() <= line@.len(),
            at <= line@.len() - word@.len() + 1,
            forall|k: int| 0 <= k < at ==> !is_token_at(line@, word@, k),
        decreases line@.len() - word@.len() + 1 - at,
    {
        let mut same: bool = true;
        let mut k: usize = 0;
        while k < word.len()
            invariant
                k <= word@.len(),
                at + word.len() <= line.len(),
                same <==> forall|j: int| 0 <= j < k ==> line@[at + j] == word@[j],
            decreases word.len() - k,
        {
            if line[at + k] != word[k] {
                same = false;
            }
            k = k + 1;
        }
        proof {
            let here = line@.subrange(at as int, at + word@.len());
            if same {
                assert(here =~= word@);
            } else {
                let j = choose|j: int| 0 <= j < k && line@[at + j] != word@[j];
                assert(here[j] != word@[j]);
            }
        }
        let end: usize = at + word.len();
        if same && (at == 0 || !is_word_char(line[at - 1])) && (end == line.len()
            || !is_word_char(line[end])) {
            assert(is_token_at(line@, word@, at as int));
            return true;
        }
        assert(!is_token_at(line@, word@, at as int));
        if at == line.len() - word.len() {
            return false;
        }
        at = at + 1;
    }
    false
}

/// Whether a line declares a `conditionset`: as a whole word, so that
/// `conditionsetting` doesn't count.
pub fn declares_a_conditionset(line: &str) -> (r: bool)
    ensures
        r == declares(line@),
{
    has_token(&text::chars_of(line), &text::chars_of("conditionset"))
}

/// Does a feature file declare a `conditionset`?
///
/// A scan, not a parse: it follows no other files.
pub fn fea_declares_a_conditionset(fea: &str) -> (r: bool)
    ensures
        r == fea_declares(fea@),
{
    let lines: Vec<Vec<char>> = text::split_at(&text::chars_of(fea), '\n');
    let keyword: Vec<char> = text::chars_of("conditionset");
    let ghost all = text::split(fea@, '\n');
    let mut i: usize = 0;
    while i < lines.len()
        invariant
            i <= lines@.len(),
            keyword@ == "conditionset"@,
            all == text::split(fea@, '\n'),
            text::parts(lines@) == all,
            forall|k: int| 0 <= k < i ==> !declares(uncommented(#[trigger] all[k])),
        decreases lines.len() - i,
    {
        assert(all[i as int] == lines@[i as int]@);
        let end: usize = match text::find_char(&lines[i], '#') {
            Some(k) => k,
            None => lines[i].len(),
        };
        let line: Vec<char> = text::slice(&lines[i], 0, end);
        assert(line@ =~= uncommented(all[i as int]));
        if has_token(&line, &keyword) {
            assert(declares(uncommented(all[i as int])));
            return true;
        }
        assert(!declares(uncommented(all[i as int])));
        i = i + 1;
    }
    assert(lines@.len() == all.len());
    false
}

/// `r` may be what `f` makes of a position.
pub open spec fn converts_to<F: Fn(&CoordConverter, Real) -> Real>(
    f: F,
    converter: CoordConverter,
    x: Real,
    r: Real,
) -> bool {
    call_ensures(f, (&converter, x), r)
}

/// `f` gives one answer for every converter and position.
pub open spec fn is_conversion<F: Fn(&CoordConverter, Real) -> Real>(f: F) -> bool {
    &&& forall|converter: CoordConverter, x: Real| call_requires(f, (&converter, x))
    &&& forall|converter: CoordConverter, x: Real, a: Real, b: Real| #[trigger]
        converts_to(f, converter, x, a) && #[trigger] converts_to(f, converter, x, b) ==> a == b
}

/// What `f` makes of a position.
pub open spec fn converted<F: Fn(&CoordConverter, Real) -> Real>(
    f: F,
    converter: CoordConverter,
    x: Real,
) -> Real {
    choose|r: Real| converts_to(f, converter, x, r)
}

/// A position in design space on every axis: where the user is on it, or its
/// default.
pub open spec fn design_of<F: Fn(&CoordConverter, Real) -> Real>(
    f: F,
    axes: Seq<Axis>,
    user: Map<Tag, Real>,
) -> Map<Tag, Real>
    decreases axes.len(),
{
    if axes.len() == 0 {
        Map::empty()
    } else {
        let axis = axes.last();
        let pos = if user.contains_key(axis.tag) {
            user[axis.tag]
        } else {
            axis.default
        };
        design_of(f, axes.drop_last(), user).insert(axis.tag, converted(f, axis.converter, pos))
    }
}

/// The pin in design space, which is the space rule conditions are written in.
///
/// It is on every axis of the source, those that cannot vary too, because a
/// condition on an axis the instance doesn't mention still has to find a
/// position there. `to_design` converts a position straight from user space: a
/// rule's bounds are inclusive, and a detour may end just beside one.
pub fn design_pin<F: Fn(&CoordConverter, Real) -> Real>(
    static_metadata: &StaticMetadata,
    user: &Location,
    to_design: &F,
) -> (r: Location)
    requires
        is_conversion(*to_design),
    ensures
        r@ == design_of(*to_design, static_metadata.all_source_axes@, user@),
{
    let axes: &Vec<Axis> = &static_metadata.all_source_axes;
    let mut r: Location = Location::new();
    let mut i: usize = 0;
    while i < axes.len()
        invariant
            i <= axes@.len(),
            is_conversion(*to_design),
            r@ == design_of(*to_design, axes@.take(i as int), user@),
        decreases axes.len() - i,
    {
        assert(axes@.take(i + 1).drop_last() =~= axes@.take(i as int));
        let pos: Real = match user.get(axes[i].tag) {
            Some(pos) => pos,
            None => axes[i].default,
        };
        let there: Real = to_design(&axes[i].converter, pos);
        assert(converts_to(*to_design, axes@[i as int].converter, pos, there));
        r.insert(axes[i].tag, there);
        i = i + 1;
    }
    assert(axes@.take(i as int) =~= axes@);
    r
}

/// Whether only a table of axes or of instances was ever going to refer to a
/// name: it labels an axis, or is the name of an instance.
pub open spec fn is_orphaned(source: StaticMetadata, value: Seq<char>) -> bool {
    ||| exists|i: int|
        0 <= i < source.axes@.len() && (#[trigger] source.axes@[i]).ui_label_name@ == value
    ||| exists|i: int|
        0 <= i < source.named_instances@.len() && names_instance(
            #[trigger] source.named_instances@[i],
            value,
        )
}

pub open spec fn names_instance(ni: NamedInstance, value: Seq<char>) -> bool {
    ni.name@ == value || (ni.postscript_name matches Some(name) && name@ == value)
}

/// Whether a record outlives the axes and the instances.
pub open spec fn outlives(source: StaticMetadata, record: (NameKey, Seq<char>)) -> bool {
    record.0.name_id <= 255 || !is_orphaned(source, record.1)
}

/// The records that outlive the axes and the instances.
pub open spec fn surviving_names(
    source: StaticMetadata,
    names: Seq<(NameKey, Seq<char>)>,
) -> Seq<(NameKey, Seq<char>)>
    decreases names.len(),
{
    if names.len() == 0 {
        seq![]
    } else {
        let rest = surviving_names(source, names.drop_last());
        if outlives(source, names.last()) {
            rest.push(names.last())
        } else {
            rest
        }
    }
}

fn finds_orphaned(source: &StaticMetadata, value: &String) -> (r: bool)
    ensures
        r == is_orphaned(*source, value@),
{
    let mut i: usize = 0;
    while i < source.axes.len()
        invariant
            i <= source.axes@.len(),
            forall|k: int| 0 <= k < i ==> (#[trigger] source.axes@[k]).ui_label_name@ != value@,
        decreases source.axes.len() - i,
    {
        if source.axes[i].ui_label_name == *value {
            return true;
        }
        i = i + 1;
    }
    let mut n: usize = 0;
    while n < source.named_instances.len()
        invariant
            n <= source.named_instances@.len(),
            forall|k: int| 0 <= k < source.axes@.len() ==> (#[trigger] source.axes@[k]).ui_label_name@ != value@,
            forall|k: int|
                0 <= k < n ==> !names_instance(#[trigger] source.named_instances@[k], value@),
        decreases source.named_instances.len() - n,
    {
        let ni: &NamedInstance = &source.named_instances[n];
        if ni.name == *value {
            assert(names_instance(source.named_instances@[n as int], value@));
            return true;
        }
        if let Some(name) = &ni.postscript_name {
            if *name == *value {
                assert(names_instance(source.named_instances@[n as int], value@));
                return true;
            }
        }
        n = n + 1;
    }
    false
}

/// Drop the name records that only the axes and the named instances were ever
/// going to reference.
///
/// Ids from 256 on are minted by a counter, and a name is reused if the source
/// already had it, so the value is the only thing that says what a record is
/// for.
pub fn prune_variable_names(pinned: &mut StaticMetadata, source_metadata: &StaticMetadata)
    ensures
        *final(pinned) == (StaticMetadata { names: final(pinned).names, ..*old(pinned) }),
        static_metadata::records(final(pinned).names@) == surviving_names(
            *source_metadata,
            static_metadata::records(old(pinned).names@),
        ),
        old(pinned).is_keyed() ==> final(pinned).is_keyed(),
{
    proof {
        let all = static_metadata::records(pinned.names@);
        if lookup::keyed(all) {
            law_pruning_keeps_keys_apart(*source_metadata, all);
        }
    }
    let ghost all = static_metadata::records(pinned.names@);
    let mut names: Vec<(NameKey, String)> = Vec::new();
    let mut i: usize = 0;
    assert(static_metadata::records(names@) =~= surviving_names(*source_metadata, all.take(0)));
    while i < pinned.names.len()
        invariant
            i <= pinned.names@.len(),
            *pinned == *old(pinned),
            all == static_metadata::records(pinned.names@),
            static_metadata::records(names@) == surviving_names(
                *source_metadata,
                all.take(i as int),
            ),
        decreases pinned.names.len() - i,
    {
        assert(all.take(i + 1).drop_last() =~= all.take(i as int));
        let id: NameId = pinned.names[i].0.name_id;
        if id <= 255 || !finds_orphaned(source_metadata, &pinned.names[i].1) {
            let ghost before = names@;
            names.push((pinned.names[i].0, pinned.names[i].1.clone()));
            assert(static_metadata::records(names@) =~= static_metadata::records(before).push(
                all[i as int],
            ));
        }
        i = i + 1;
    }
    assert(all.take(i as int) =~= all);
    pinned.names = names;
}

/// A record with a reserved id survives, and so does one that names neither an
/// axis nor an instance; no other does.
pub proof fn law_only_orphaned_names_are_pruned(
    source: StaticMetadata,
    names: Seq<(NameKey, Seq<char>)>,
    record: (NameKey, Seq<char>),
)
    ensures
        surviving_names(source, names).contains(record) <==> names.contains(record) && outlives(
            source,
            record,
        ),
    decreases names.len(),
{
    if names.len() > 0 {
        let rest = names.drop_last();
        law_only_orphaned_names_are_pruned(source, rest, record);
        let kept = surviving_names(source, rest);
        let after = surviving_names(source, names);
        if names.contains(record) {
            let i = choose|i: int| 0 <= i < names.len() && names[i] == record;
            if i < rest.len() {
                assert(rest[i] == record);
            }
        }
        if rest.contains(record) {
            let i = choose|i: int| 0 <= i < rest.len() && rest[i] == record;
            assert(names[i] == record);
        }
        if kept.contains(record) {
            let i = choose|i: int| 0 <= i < kept.len() && kept[i] == record;
            assert(after[i] == record);
        }
        if outlives(source, names.last()) {
            assert(after[kept.len() as int] == names.last());
            if after.contains(record) {
                let i = choose|i: int| 0 <= i < after.len() && after[i] == record;
                if i < kept.len() {
                    assert(kept[i] == record);
                }
            }
        }
        assert(names[names.len() - 1] == names.last());
    }
}

/// Pruning names leaves every key there once.
pub proof fn law_pruning_keeps_keys_apart(
    source: StaticMetadata,
    names: Seq<(NameKey, Seq<char>)>,
)
    requires
        lookup::keyed(names),
    ensures
        lookup::keyed(surviving_names(source, names)),
    decreases names.len(),
{
    if names.len() > 0 {
        let rest = names.drop_last();
        let kept = surviving_names(source, rest);
        let after = surviving_names(source, names);
        assert(lookup::keyed(rest)) by {
            assert forall|i: int, j: int| 0 <= i < j < rest.len() implies (
            #[trigger] rest[i]).0 != (#[trigger] rest[j]).0 by {
                assert(rest[i] == names[i] && rest[j] == names[j]);
            }
        }
        law_pruning_keeps_keys_apart(source, rest);
        assert forall|i: int, j: int| 0 <= i < j < after.len() implies (#[trigger] after[i]).0 != (
        #[trigger] after[j]).0 by {
            assert(after[i] == kept[i]);
            if j < kept.len() {
                assert(after[j] == kept[j]);
            } else {
                assert(kept.contains(kept[i]));
                law_only_orphaned_names_are_pruned(source, rest, kept[i]);
                let k = choose|k: int| 0 <= k < rest.len() && rest[k] == kept[i];
                assert(names[k] == kept[i]);
                assert(names[names.len() - 1] == after[j]);
            }
        }
    }
}

/// Why an instance cannot be built.
#[derive(Debug, PartialEq, Eq)]
pub enum InstanceError {
    /// It doesn't name a position the source has.
    Pin(PinError),
    /// A rule substitutes a glyph that is not there.
    RuleSubstituteMissing { replace: String, with: String },
    /// A feature file has a `conditionset`.
    SourceWithFeaConditionSet,
    /// A glyph or its anchors cannot be interpolated.
    BadGlyph(BadGlyph),
    /// Something else cannot be interpolated.
    Delta(String),
}

/// What a drawing becomes when it trades places with another.
pub open spec fn exchanged_drawing(a: DrawingView, b: DrawingView) -> DrawingView {
    DrawingView {
        width: b.width,
        contours: b.contours,
        components: b.components,
        height: a.height,
        vertical_origin: a.vertical_origin,
    }
}

/// A drawing after two glyphs that it may have as components trade places.
pub open spec fn renamed_drawing(
    d: DrawingView,
    old_name: Seq<char>,
    new_name: Seq<char>,
) -> DrawingView {
    DrawingView {
        components: d.components.map_values(
            |c: ComponentView|
                (ComponentView { base: glyph::swapped_name(c.base, old_name, new_name), ..c }),
        ),
        ..d
    }
}

/// The index of the first drawing at a location.
pub open spec fn drawing_at(
    sources: Seq<(Map<Tag, Real>, DrawingView)>,
    at: Map<Tag, Real>,
) -> Option<int>
    decreases sources.len(),
{
    if sources.len() == 0 {
        None
    } else {
        match drawing_at(sources.drop_last(), at) {
            Some(i) => Some(i),
            None => if sources.last().0 == at {
                Some(sources.len() - 1)
            } else {
                None
            },
        }
    }
}

/// One drawing, exchanged with the one of another glyph at the same location
/// if there is one.
pub open spec fn exchanged_source(
    s: (Map<Tag, Real>, DrawingView),
    others: Seq<(Map<Tag, Real>, DrawingView)>,
) -> (Map<Tag, Real>, DrawingView) {
    match drawing_at(others, s.0) {
        Some(k) => (s.0, exchanged_drawing(s.1, others[k].1)),
        None => s,
    }
}

/// The drawings of a glyph, exchanged with those of another.
pub open spec fn exchanged_sources(
    a: Seq<(Map<Tag, Real>, DrawingView)>,
    b: Seq<(Map<Tag, Real>, DrawingView)>,
) -> Seq<(Map<Tag, Real>, DrawingView)> {
    a.map_values(|s: (Map<Tag, Real>, DrawingView)| exchanged_source(s, b))
}

/// The drawings of a glyph after two glyphs trade places.
pub open spec fn renamed_sources(
    a: Seq<(Map<Tag, Real>, DrawingView)>,
    old_name: Seq<char>,
    new_name: Seq<char>,
) -> Seq<(Map<Tag, Real>, DrawingView)> {
    a.map_values(
        |s: (Map<Tag, Real>, DrawingView)| (s.0, renamed_drawing(s.1, old_name, new_name)),
    )
}

/// No two of these drawings are at one location.
pub open spec fn at_distinct_places(sources: Seq<(Map<Tag, Real>, DrawingView)>) -> bool {
    forall|i: int, j: int|
        0 <= i < j < sources.len() ==> (#[trigger] sources[i]).0 != (#[trigger] sources[j]).0
}

proof fn lemma_drawing_at(sources: Seq<(Map<Tag, Real>, DrawingView)>, at: Map<Tag, Real>)
    ensures
        match drawing_at(sources, at) {
            Some(i) => 0 <= i < sources.len() && sources[i].0 == at && forall|j: int|
                0 <= j < i ==> (#[trigger] sources[j]).0 != at,
            None => forall|j: int| 0 <= j < sources.len() ==> (#[trigger] sources[j]).0 != at,
        },
    decreases sources.len(),
{
    if sources.len() > 0 {
        let rest = sources.drop_last();
        lemma_drawing_at(rest, at);
        assert(forall|j: int| 0 <= j < rest.len() ==> #[trigger] sources[j] == rest[j]);
    }
}

/// Exchange what two glyphs draw, and how wide they are, wherever both have a
/// drawing.
fn exchange(a: &mut Vec<(Location, GlyphInstance)>, b: &mut Vec<(Location, GlyphInstance)>)
    requires
        at_distinct_places(glyph::drawings(old(a)@)),
        at_distinct_places(glyph::drawings(old(b)@)),
    ensures
        glyph::drawings(final(a)@) == exchanged_sources(
            glyph::drawings(old(a)@),
            glyph::drawings(old(b)@),
        ),
        glyph::drawings(final(b)@) == exchanged_sources(
            glyph::drawings(old(b)@),
            glyph::drawings(old(a)@),
        ),
{
    let ghost va = glyph::drawings(a@);
    let ghost vb = glyph::drawings(b@);
    let mut i: usize = 0;
    assert(va.take(0) =~= seq![]);
    while i < a.len()
        invariant
            i <= a@.len(),
            a@.len() == va.len(),
            b@.len() == vb.len(),
            at_distinct_places(va),
            at_distinct_places(vb),
            forall|j: int|
                0 <= j < i ==> (#[trigger] glyph::drawings(a@)[j]) == exchanged_source(va[j], vb),
            forall|j: int| i <= j < va.len() ==> (#[trigger] glyph::drawings(a@)[j]) == va[j],
            forall|k: int|
                0 <= k < vb.len() ==> (#[trigger] glyph::drawings(b@)[k]) == exchanged_source(
                    vb[k],
                    va.take(i as int),
                ),
        decreases a.len() - i,
    {
        let ghost a_was = a@;
        let ghost b_was = b@;
        assert(glyph::drawings(a@)[i as int] == va[i as int]);
        let found: Option<usize> = coords::find_placed(b, &a[i].0);
        proof {
            coords::lemma_placed(b@, a@[i as int].0@);
            lemma_drawing_at(vb, va[i as int].0);
            lemma_drawing_at(va.take(i as int), va[i as int].0);
            assert forall|k: int| 0 <= k < vb.len() implies b@[k].0@ == (#[trigger] vb[k]).0 by {
                assert(glyph::drawings(b@)[k].0 == b@[k].0@);
            }
        }
        if let Some(k) = found {
            proof {
                assert(drawing_at(vb, va[i as int].0) == Some(k as int)) by {
                    let d = drawing_at(vb, va[i as int].0);
                    assert(vb[k as int].0 == va[i as int].0);
                    assert(d is Some);
                    if d->0 != k as int {
                        if d->0 < k {
                            assert(vb[d->0].0 != vb[k as int].0);
                        } else {
                            assert(vb[k as int].0 != vb[d->0].0);
                        }
                    }
                }
                assert(drawing_at(va.take(i as int), va[i as int].0) is None) by {
                    let d = drawing_at(va.take(i as int), va[i as int].0);
                    if d is Some {
                        assert(va[d->0].0 != va[i as int].0);
                    }
                }
                assert(glyph::drawings(b@)[k as int] == vb[k as int]);
            }
            glyph::swap_geometry(&mut a[i].1, &mut b[k].1);
            proof {
                assert(glyph::drawings(a@)[i as int] == exchanged_source(va[i as int], vb));
                assert(glyph::drawings(b@)[k as int].1 == exchanged_drawing(
                    vb[k as int].1,
                    va[i as int].1,
                ));
                assert forall|j: int| 0 <= j < va.len() && j != i implies (
                #[trigger] glyph::drawings(a@)[j]) == glyph::drawings(a_was)[j] by {
                    assert(a@[j] == a_was[j]);
                }
                assert forall|j: int| 0 <= j < vb.len() && j != k implies (
                #[trigger] glyph::drawings(b@)[j]) == glyph::drawings(b_was)[j] by {
                    assert(b@[j] == b_was[j]);
                }
            }
        }
        proof {
            let now = va.take(i + 1);
            assert(now.drop_last() =~= va.take(i as int));
            assert forall|k: int| 0 <= k < vb.len() implies (#[trigger] glyph::drawings(b@)[k])
                == exchanged_source(vb[k], now) by {
                let was = va.take(i as int);
                lemma_drawing_at(was, vb[k].0);
                lemma_drawing_at(now, vb[k].0);
                assert(glyph::drawings(b_was)[k] == exchanged_source(vb[k], was));
                if vb[k].0 == va[i as int].0 {
                    assert(found is Some);
                    if found->0 != k {
                        if found->0 < k {
                            assert(vb[found->0 as int].0 != vb[k].0);
                        } else {
                            assert(vb[k].0 != vb[found->0 as int].0);
                        }
                    }
                    assert(drawing_at(now, vb[k].0) == Some(i as int));
                } else {
                    assert(drawing_at(now, vb[k].0) == drawing_at(was, vb[k].0));
                    if found is Some {
                        assert(found->0 != k);
                    }
                    assert(glyph::drawings(b@)[k] == glyph::drawings(b_was)[k]);
                    match drawing_at(was, vb[k].0) {
                        Some(j) => {
                            assert(was[j] == now[j]);
                        },
                        None => {},
                    }
                }
            }
        }
        i = i + 1;
    }
    assert(va.take(i as int) =~= va);
    assert(glyph::drawings(a@) =~= exchanged_sources(va, vb));
    assert(glyph::drawings(b@) =~= exchanged_sources(vb, va));
}

/// The index of the first glyph with a name.
pub open spec fn glyph_called(glyphs: Seq<GlyphView>, name: Seq<char>) -> Option<int>
    decreases glyphs.len(),
{
    if glyphs.len() == 0 {
        None
    } else {
        match glyph_called(glyphs.drop_last(), name) {
            Some(i) => Some(i),
            None => if glyphs.last().name == name {
                Some(glyphs.len() - 1)
            } else {
                None
            },
        }
    }
}

proof fn lemma_glyph_called(glyphs: Seq<GlyphView>, name: Seq<char>)
    ensures
        match glyph_called(glyphs, name) {
            Some(i) => 0 <= i < glyphs.len() && glyphs[i].name == name && forall|j: int|
                0 <= j < i ==> (#[trigger] glyphs[j]).name != name,
            None => forall|j: int| 0 <= j < glyphs.len() ==> (#[trigger] glyphs[j]).name != name,
        },
    decreases glyphs.len(),
{
    if glyphs.len() > 0 {
        let rest = glyphs.drop_last();
        lemma_glyph_called(rest, name);
        assert(forall|j: int| 0 <= j < rest.len() ==> #[trigger] glyphs[j] == rest[j]);
    }
}

fn find_glyph(glyphs: &Vec<Glyph>, name: &String) -> (r: Option<usize>)
    ensures
        glyph_called(glyph::glyph_views(glyphs@), name@) == (match r {
            Some(i) => Some(i as int),
            None => None,
        }),
        r is Some ==> r->0 < glyphs@.len(),
{
    let ghost all = glyph::glyph_views(glyphs@);
    proof {
        lemma_glyph_called(all, name@);
    }
    let mut i: usize = 0;
    while i < glyphs.len()
        invariant
            i <= glyphs@.len(),
            all == glyph::glyph_views(glyphs@),
            forall|j: int| 0 <= j < i ==> (#[trigger] all[j]).name != name@,
            match glyph_called(all, name@) {
                Some(i) => 0 <= i < all.len() && all[i].name == name@ && forall|j: int|
                    0 <= j < i ==> (#[trigger] all[j]).name != name@,
                None => forall|j: int| 0 <= j < all.len() ==> (#[trigger] all[j]).name != name@,
            },
        decreases glyphs.len() - i,
    {
        assert(all[i as int].name == glyphs@[i as int].name@);
        if glyphs[i].name == *name {
            return Some(i);
        }
        i = i + 1;
    }
    None
}

/// Glyphs are kept by name, and their drawings by location.
pub open spec fn are_keyed(glyphs: Seq<GlyphView>) -> bool {
    &&& forall|i: int, j: int|
        0 <= i < j < glyphs.len() ==> (#[trigger] glyphs[i]).name != (#[trigger] glyphs[j]).name
    &&& forall|i: int| 0 <= i < glyphs.len() ==> at_distinct_places((#[trigger] glyphs[i]).sources)
}

/// What a glyph draws once it has traded places with another, if it does.
pub open spec fn traded_sources(
    g: GlyphView,
    glyphs: Seq<GlyphView>,
    old_name: Seq<char>,
    new_name: Seq<char>,
) -> Seq<(Map<Tag, Real>, DrawingView)> {
    let other = if g.name == old_name {
        glyph_called(glyphs, new_name)
    } else if g.name == new_name {
        glyph_called(glyphs, old_name)
    } else {
        None
    };
    match other {
        Some(k) => exchanged_sources(g.sources, glyphs[k].sources),
        None => g.sources,
    }
}

/// A glyph after two glyphs trade places.
///
/// Both survive with their own name, codepoints and place; what moves is what
/// they draw, how wide they are, and which of them everyone's components point
/// at.
pub open spec fn swapped_glyph(
    g: GlyphView,
    glyphs: Seq<GlyphView>,
    old_name: Seq<char>,
    new_name: Seq<char>,
) -> GlyphView {
    GlyphView {
        sources: renamed_sources(
            traded_sources(g, glyphs, old_name, new_name),
            old_name,
            new_name,
        ),
        ..g
    }
}

/// All glyphs after two of them trade places.
pub open spec fn swapped_glyphs(
    glyphs: Seq<GlyphView>,
    old_name: Seq<char>,
    new_name: Seq<char>,
) -> Seq<GlyphView> {
    glyphs.map_values(|g: GlyphView| swapped_glyph(g, glyphs, old_name, new_name))
}

/// Glyph names and anchors.
pub open spec fn anchor_entries(anchors: Seq<GlyphAnchors>) -> Seq<(Seq<char>, Seq<Anchor>)> {
    anchors.map_values(|a: GlyphAnchors| (a.glyph_name@, a.anchors@))
}

/// The index of the first entry of a glyph.
pub open spec fn entry_of(entries: Seq<(Seq<char>, Seq<Anchor>)>, name: Seq<char>) -> Option<int>
    decreases entries.len(),
{
    if entries.len() == 0 {
        None
    } else {
        match entry_of(entries.drop_last(), name) {
            Some(i) => Some(i),
            None => if entries.last().0 == name {
                Some(entries.len() - 1)
            } else {
                None
            },
        }
    }
}

proof fn lemma_entry_of(entries: Seq<(Seq<char>, Seq<Anchor>)>, name: Seq<char>)
    ensures
        match entry_of(entries, name) {
            Some(i) => 0 <= i < entries.len() && entries[i].0 == name && forall|j: int|
                0 <= j < i ==> (#[trigger] entries[j]).0 != name,
            None => forall|j: int| 0 <= j < entries.len() ==> (#[trigger] entries[j]).0 != name,
        },
    decreases entries.len(),
{
    if entries.len() > 0 {
        let rest = entries.drop_last();
        lemma_entry_of(rest, name);
        assert(forall|j: int| 0 <= j < rest.len() ==> #[trigger] entries[j] == rest[j]);
    }
}

/// The anchors of a glyph, none if it has no entry.
pub open spec fn anchors_of(entries: Seq<(Seq<char>, Seq<Anchor>)>, name: Seq<char>) -> Seq<
    Anchor,
> {
    match entry_of(entries, name) {
        Some(i) => entries[i].1,
        None => seq![],
    }
}

/// Anchors are kept by glyph.
pub open spec fn entries_are_keyed(entries: Seq<(Seq<char>, Seq<Anchor>)>) -> bool {
    forall|i: int, j: int|
        0 <= i < j < entries.len() ==> (#[trigger] entries[i]).0 != (#[trigger] entries[j]).0
}

/// The anchors of all glyphs once those of one are set.
pub open spec fn with_anchors(
    entries: Seq<(Seq<char>, Seq<Anchor>)>,
    name: Seq<char>,
    anchors: Seq<Anchor>,
) -> Seq<(Seq<char>, Seq<Anchor>)> {
    match entry_of(entries, name) {
        Some(i) => entries.update(i, (name, anchors)),
        None => entries.push((name, anchors)),
    }
}

/// The anchors of all glyphs after two of them trade places.
pub open spec fn swapped_anchors(
    entries: Seq<(Seq<char>, Seq<Anchor>)>,
    old_name: Seq<char>,
    new_name: Seq<char>,
) -> Seq<(Seq<char>, Seq<Anchor>)> {
    let ours = anchors_of(entries, old_name);
    let theirs = anchors_of(entries, new_name);
    if ours.len() == 0 && theirs.len() == 0 {
        entries
    } else {
        with_anchors(with_anchors(entries, old_name, theirs), new_name, ours)
    }
}

fn find_entry(anchors: &Vec<GlyphAnchors>, name: &String) -> (r: Option<usize>)
    ensures
        entry_of(anchor_entries(anchors@), name@) == (match r {
            Some(i) => Some(i as int),
            None => None,
        }),
        r is Some ==> r->0 < anchors@.len(),
{
    let ghost all = anchor_entries(anchors@);
    proof {
        lemma_entry_of(all, name@);
    }
    let mut i: usize = 0;
    while i < anchors.len()
        invariant
            i <= anchors@.len(),
            all == anchor_entries(anchors@),
            forall|j: int| 0 <= j < i ==> (#[trigger] all[j]).0 != name@,
            match entry_of(all, name@) {
                Some(i) => 0 <= i < all.len() && all[i].0 == name@ && forall|j: int|
                    0 <= j < i ==> (#[trigger] all[j]).0 != name@,
                None => forall|j: int| 0 <= j < all.len() ==> (#[trigger] all[j]).0 != name@,
            },
        decreases anchors.len() - i,
    {
        assert(all[i as int].0 == anchors@[i as int].glyph_name@);
        if anchors[i].glyph_name == *name {
            return Some(i);
        }
        i = i + 1;
    }
    None
}

proof fn lemma_with_anchors(
    entries: Seq<(Seq<char>, Seq<Anchor>)>,
    name: Seq<char>,
    anchors: Seq<Anchor>,
    other: Seq<char>,
)
    ensures
        anchors_of(with_anchors(entries, name, anchors), name) == anchors,
        other != name ==> anchors_of(with_anchors(entries, name, anchors), other) == anchors_of(
            entries,
            other,
        ),
        other != name ==> entry_of(with_anchors(entries, name, anchors), other) == entry_of(
            entries,
            other,
        ),
        entry_of(with_anchors(entries, name, anchors), name) == (match entry_of(entries, name) {
            Some(i) => Some(i),
            None => Some(entries.len() as int),
        }),
        entries_are_keyed(entries) ==> entries_are_keyed(with_anchors(entries, name, anchors)),
{
    let after = with_anchors(entries, name, anchors);
    lemma_entry_of(entries, name);
    lemma_entry_of(entries, other);
    lemma_entry_of(after, name);
    lemma_entry_of(after, other);
    match entry_of(entries, name) {
        Some(i) => {
            assert(after[i] == (name, anchors));
            assert(forall|j: int| 0 <= j < entries.len() ==> (#[trigger] after[j]).0 == entries[j].0);
            let k = entry_of(after, name);
            assert(k is Some);
            if k->0 < i {
                assert(entries[k->0].0 != name);
            }
        },
        None => {
            assert(after[entries.len() as int] == (name, anchors));
            assert(forall|j: int| 0 <= j < entries.len() ==> #[trigger] after[j] == entries[j]);
        },
    }
    if other != name {
        match (entry_of(entries, other), entry_of(after, other)) {
            (Some(i), Some(k)) => {
                assert(after[i].0 == other);
                assert(k < entries.len());
                assert(entries[k].0 == other);
            },
            (Some(i), None) => {
                assert(after[i].0 == other);
            },
            (None, Some(k)) => {
                assert(k < entries.len());
                assert(entries[k].0 == other);
            },
            (None, None) => {},
        }
    }
}

/// Exchange the anchors of two glyphs.
fn swap_anchors(anchors: &mut Vec<GlyphAnchors>, old_name: &String, new_name: &String)
    requires
        entries_are_keyed(anchor_entries(old(anchors)@)),
    ensures
        anchor_entries(final(anchors)@) == swapped_anchors(
            anchor_entries(old(anchors)@),
            old_name@,
            new_name@,
        ),
{
    let ghost all = anchor_entries(anchors@);
    let ours: Option<usize> = find_entry(anchors, old_name);
    let theirs: Option<usize> = find_entry(anchors, new_name);
    proof {
        lemma_entry_of(all, old_name@);
        lemma_entry_of(all, new_name@);
        let between = with_anchors(all, old_name@, anchors_of(all, new_name@));
        lemma_with_anchors(all, old_name@, anchors_of(all, new_name@), new_name@);
        lemma_entry_of(between, new_name@);
    }
    match (ours, theirs) {
        (Some(i), Some(j)) => {
            if i != j {
                let mut held: Vec<Anchor> = Vec::new();
                std::mem::swap(&mut held, &mut anchors[i].anchors);
                std::mem::swap(&mut held, &mut anchors[j].anchors);
                std::mem::swap(&mut held, &mut anchors[i].anchors);
            }
            proof {
                let a = all[i as int].1;
                let b = all[j as int].1;
                assert(anchor_entries(anchors@) =~= all.update(i as int, (old_name@, b)).update(
                    j as int,
                    (new_name@, a),
                ));
                if a.len() == 0 && b.len() == 0 {
                    assert(a =~= b);
                    assert(anchor_entries(anchors@) =~= all);
                }
            }
        },
        (Some(i), None) => {
            let mut held: Vec<Anchor> = Vec::new();
            std::mem::swap(&mut held, &mut anchors[i].anchors);
            if held.len() > 0 {
                anchors.push(GlyphAnchors { glyph_name: new_name.clone(), anchors: held });
                assert(anchor_entries(anchors@) =~= all.update(i as int, (old_name@, seq![])).push(
                    (new_name@, all[i as int].1),
                ));
            } else {
                assert(all[i as int].1 =~= seq![]);
                assert(anchor_entries(anchors@) =~= all);
            }
        },
        (None, Some(j)) => {
            let mut held: Vec<Anchor> = Vec::new();
            std::mem::swap(&mut held, &mut anchors[j].anchors);
            if held.len() > 0 {
                anchors.push(GlyphAnchors { glyph_name: old_name.clone(), anchors: held });
                assert(anchor_entries(anchors@) =~= all.push((old_name@, all[j as int].1)).update(
                    j as int,
                    (new_name@, seq![]),
                ));
            } else {
                assert(all[j as int].1 =~= seq![]);
                assert(anchor_entries(anchors@) =~= all);
            }
        },
        (None, None) => {},
    }
}

/// Rewrite the components of a glyph's drawings.
fn rename_bases(
    sources: &mut Vec<(Location, GlyphInstance)>,
    old_name: &String,
    new_name: &String,
)
    ensures
        glyph::drawings(final(sources)@) == renamed_sources(
            glyph::drawings(old(sources)@),
            old_name@,
            new_name@,
        ),
{
    let ghost all = glyph::drawings(sources@);
    let mut i: usize = 0;
    while i < sources.len()
        invariant
            i <= sources@.len(),
            sources@.len() == all.len(),
            forall|j: int|
                0 <= j < i ==> (#[trigger] glyph::drawings(sources@)[j]) == (
                    all[j].0,
                    renamed_drawing(all[j].1, old_name@, new_name@),
                ),
            forall|j: int|
                i <= j < all.len() ==> (#[trigger] glyph::drawings(sources@)[j]) == all[j],
        decreases sources.len() - i,
    {
        let ghost before = sources@;
        assert(glyph::drawings(sources@)[i as int] == all[i as int]);
        let _changed: bool = glyph::swap_component_bases(&mut sources[i].1, old_name, new_name);
        proof {
            let was = before[i as int].1;
            let now = sources@[i as int].1;
            assert(now@.components =~= renamed_drawing(was@, old_name@, new_name@).components) by {
                assert forall|k: int| 0 <= k < now@.components.len() implies now@.components[k]
                    == renamed_drawing(was@, old_name@, new_name@).components[k] by {
                    assert(now.components@[k].base@ == glyph::swapped_name(
                        was.components@[k].base@,
                        old_name@,
                        new_name@,
                    ));
                }
            }
            assert(now@ == renamed_drawing(was@, old_name@, new_name@));
            assert forall|j: int| 0 <= j < all.len() && j != i implies (#[trigger] glyph::drawings(
                sources@,
            )[j]) == glyph::drawings(before)[j] by {
                assert(sources@[j] == before[j]);
            }
        }
        i = i + 1;
    }
    assert(glyph::drawings(sources@) =~= renamed_sources(all, old_name@, new_name@));
}

/// A glyph with other drawings.
pub open spec fn with_sources(
    g: GlyphView,
    sources: Seq<(Map<Tag, Real>, DrawingView)>,
) -> GlyphView {
    GlyphView { sources, ..g }
}

/// Exchange what two glyphs draw, their anchors, and which of them everyone
/// else's components point at. Kerning is not known yet.
///
/// A substitute that is not there is an error, and nothing changes.
pub fn swap_glyphs(
    glyphs: &mut Vec<Glyph>,
    anchors: &mut Vec<GlyphAnchors>,
    old_name: &String,
    new_name: &String,
) -> (r: Result<(), InstanceError>)
    requires
        are_keyed(glyph::glyph_views(old(glyphs)@)),
        entries_are_keyed(anchor_entries(old(anchors)@)),
    ensures
        match r {
            Ok(_) => {
                &&& is_possible(glyph::glyph_views(old(glyphs)@), (old_name@, new_name@))
                &&& glyph::glyph_views(final(glyphs)@) == swapped_glyphs(
                    glyph::glyph_views(old(glyphs)@),
                    old_name@,
                    new_name@,
                )
                &&& anchor_entries(final(anchors)@) == swapped_anchors(
                    anchor_entries(old(anchors)@),
                    old_name@,
                    new_name@,
                )
            },
            Err(e) => {
                &&& !is_possible(glyph::glyph_views(old(glyphs)@), (old_name@, new_name@))
                &&& is_missing(e, (old_name@, new_name@))
                &&& *final(glyphs) == *old(glyphs)
                &&& *final(anchors) == *old(anchors)
            },
        },
{
    let ghost all = glyph::glyph_views(glyphs@);
    let ours: Option<usize> = find_glyph(glyphs, old_name);
    let theirs: Option<usize> = find_glyph(glyphs, new_name);
    proof {
        lemma_glyph_called(all, old_name@);
        lemma_glyph_called(all, new_name@);
    }
    let (i, j): (usize, usize) = match (ours, theirs) {
        (Some(i), Some(j)) => (i, j),
        _ => {
            return Err(
                InstanceError::RuleSubstituteMissing {
                    replace: old_name.clone(),
                    with: new_name.clone(),
                },
            );
        },
    };
    if i != j {
        let mut a: Vec<(Location, GlyphInstance)> = Vec::new();
        let mut b: Vec<(Location, GlyphInstance)> = Vec::new();
        std::mem::swap(&mut a, &mut glyphs[i].sources);
        std::mem::swap(&mut b, &mut glyphs[j].sources);
        assert(glyph::drawings(a@) == all[i as int].sources);
        assert(glyph::drawings(b@) == all[j as int].sources);
        exchange(&mut a, &mut b);
        std::mem::swap(&mut a, &mut glyphs[i].sources);
        std::mem::swap(&mut b, &mut glyphs[j].sources);
    }
    proof {
        let now = glyph::glyph_views(glyphs@);
        assert forall|k: int| 0 <= k < all.len() implies #[trigger] now[k] == with_sources(
            all[k],
            traded_sources(all[k], all, old_name@, new_name@),
        ) by {
            if i == j {
                lemma_trading_with_itself(all[k], all, old_name@);
            } else if k != i && k != j {
                if k < i {
                    assert(all[k].name != all[i as int].name);
                } else {
                    assert(all[i as int].name != all[k].name);
                }
                if k < j {
                    assert(all[k].name != all[j as int].name);
                } else {
                    assert(all[j as int].name != all[k].name);
                }
            }
        }
    }
    swap_anchors(anchors, old_name, new_name);
    let ghost traded = glyph::glyph_views(glyphs@);
    let mut k: usize = 0;
    while k < glyphs.len()
        invariant
            k <= glyphs@.len(),
            glyphs@.len() == all.len(),
            traded.len() == all.len(),
            forall|m: int|
                0 <= m < all.len() ==> #[trigger] traded[m] == with_sources(
                    all[m],
                    traded_sources(all[m], all, old_name@, new_name@),
                ),
            forall|m: int|
                0 <= m < k ==> #[trigger] glyph::glyph_views(glyphs@)[m] == swapped_glyph(
                    all[m],
                    all,
                    old_name@,
                    new_name@,
                ),
            forall|m: int|
                k <= m < all.len() ==> #[trigger] glyph::glyph_views(glyphs@)[m] == traded[m],
        decreases glyphs.len() - k,
    {
        let ghost before = glyphs@;
        assert(glyph::glyph_views(glyphs@)[k as int] == traded[k as int]);
        rename_bases(&mut glyphs[k].sources, old_name, new_name);
        proof {
            assert forall|m: int| 0 <= m < all.len() && m != k implies (#[trigger] glyph::glyph_views(
                glyphs@,
            )[m]) == glyph::glyph_views(before)[m] by {
                assert(glyphs@[m] == before[m]);
            }
        }
        k = k + 1;
    }
    assert(glyph::glyph_views(glyphs@) =~= swapped_glyphs(all, old_name@, new_name@));
    Ok(())
}

/// Whether both glyphs of a swap are there.
pub open spec fn is_possible(glyphs: Seq<GlyphView>, swap: (Seq<char>, Seq<char>)) -> bool {
    glyph_called(glyphs, swap.0) is Some && glyph_called(glyphs, swap.1) is Some
}

/// The error for a swap with a glyph that is not there.
pub open spec fn is_missing(e: InstanceError, swap: (Seq<char>, Seq<char>)) -> bool {
    e matches InstanceError::RuleSubstituteMissing { replace, with } && replace@ == swap.0 && with@
        == swap.1
}

/// A glyph that trades places with itself keeps what it draws.
proof fn lemma_trading_with_itself(g: GlyphView, glyphs: Seq<GlyphView>, name: Seq<char>)
    requires
        are_keyed(glyphs),
        glyphs.contains(g),
    ensures
        traded_sources(g, glyphs, name, name) == g.sources,
{
    lemma_glyph_called(glyphs, name);
    if g.name == name {
        let i = choose|i: int| 0 <= i < glyphs.len() && glyphs[i] == g;
        let k = glyph_called(glyphs, name)->0;
        if k < i {
            assert(glyphs[k].name != glyphs[i].name);
        } else if i < k {
            assert(glyphs[i].name != glyphs[k].name);
        }
        assert(exchanged_sources(g.sources, g.sources) =~= g.sources) by {
            assert forall|s: int| 0 <= s < g.sources.len() implies exchanged_sources(
                g.sources,
                g.sources,
            )[s] == g.sources[s] by {
                lemma_drawing_at(g.sources, g.sources[s].0);
                let d = drawing_at(g.sources, g.sources[s].0)->0;
                if d < s {
                    assert(g.sources[d].0 != g.sources[s].0);
                } else if s < d {
                    assert(g.sources[s].0 != g.sources[d].0);
                }
            }
        }
    }
}

/// All glyphs after several swaps, each on the result of the last.
pub open spec fn glyphs_after(
    glyphs: Seq<GlyphView>,
    swaps: Seq<(Seq<char>, Seq<char>)>,
) -> Seq<GlyphView>
    decreases swaps.len(),
{
    if swaps.len() == 0 {
        glyphs
    } else {
        swapped_glyphs(glyphs_after(glyphs, swaps.drop_last()), swaps.last().0, swaps.last().1)
    }
}

/// The anchors of all glyphs after several swaps, each on the result of the
/// last.
pub open spec fn anchors_after(
    entries: Seq<(Seq<char>, Seq<Anchor>)>,
    swaps: Seq<(Seq<char>, Seq<char>)>,
) -> Seq<(Seq<char>, Seq<Anchor>)>
    decreases swaps.len(),
{
    if swaps.len() == 0 {
        entries
    } else {
        swapped_anchors(anchors_after(entries, swaps.drop_last()), swaps.last().0, swaps.last().1)
    }
}

/// Two lists name the same glyphs in the same order, and each has its drawings
/// at the same locations in both.
pub open spec fn keyed_alike(a: Seq<GlyphView>, b: Seq<GlyphView>) -> bool {
    &&& a.len() == b.len()
    &&& forall|i: int| 0 <= i < a.len() ==> (#[trigger] a[i]).name == b[i].name
    &&& forall|i: int| 0 <= i < a.len() ==> (#[trigger] a[i]).sources.len() == b[i].sources.len()
    &&& forall|i: int, j: int|
        0 <= i < a.len() && 0 <= j < a[i].sources.len() ==> (#[trigger] a[i].sources[j]).0
            == b[i].sources[j].0
}

proof fn lemma_keyed_alike(a: Seq<GlyphView>, b: Seq<GlyphView>)
    requires
        keyed_alike(a, b),
        are_keyed(a),
    ensures
        are_keyed(b),
        forall|name: Seq<char>| glyph_called(a, name) == glyph_called(b, name),
{
    assert forall|i: int| 0 <= i < b.len() implies at_distinct_places((#[trigger] b[i]).sources) by {
        assert(at_distinct_places(a[i].sources));
        assert forall|x: int, y: int| 0 <= x < y < b[i].sources.len() implies (
        #[trigger] b[i].sources[x]).0 != (#[trigger] b[i].sources[y]).0 by {
            assert(a[i].sources[x].0 != a[i].sources[y].0);
        }
    }
    assert forall|i: int, j: int| 0 <= i < j < b.len() implies (#[trigger] b[i]).name != (
    #[trigger] b[j]).name by {
        assert(a[i].name != a[j].name);
    }
    assert forall|name: Seq<char>| glyph_called(a, name) == glyph_called(b, name) by {
        lemma_glyph_called(a, name);
        lemma_glyph_called(b, name);
        match (glyph_called(a, name), glyph_called(b, name)) {
            (Some(i), Some(j)) => {
                assert(a[j].name == name);
                assert(b[i].name == name);
            },
            (Some(i), None) => {
                assert(a[i].name == b[i].name);
            },
            (None, Some(j)) => {
                assert(a[j].name == b[j].name);
            },
            (None, None) => {},
        }
    }
}

/// A swap moves drawings, not glyphs.
proof fn lemma_swap_keeps_keys(glyphs: Seq<GlyphView>, old_name: Seq<char>, new_name: Seq<char>)
    ensures
        keyed_alike(glyphs, swapped_glyphs(glyphs, old_name, new_name)),
{
}

proof fn lemma_swaps_keep_keys(glyphs: Seq<GlyphView>, swaps: Seq<(Seq<char>, Seq<char>)>)
    requires
        are_keyed(glyphs),
    ensures
        keyed_alike(glyphs, glyphs_after(glyphs, swaps)),
        are_keyed(glyphs_after(glyphs, swaps)),
    decreases swaps.len(),
{
    if swaps.len() > 0 {
        let before = glyphs_after(glyphs, swaps.drop_last());
        let after = glyphs_after(glyphs, swaps);
        lemma_swaps_keep_keys(glyphs, swaps.drop_last());
        lemma_swap_keeps_keys(before, swaps.last().0, swaps.last().1);
        assert forall|i: int| 0 <= i < glyphs.len() implies (#[trigger] glyphs[i]).name
            == after[i].name && glyphs[i].sources.len() == after[i].sources.len() by {
            assert(before[i].name == after[i].name);
        }
        assert forall|i: int, j: int|
            0 <= i < glyphs.len() && 0 <= j < glyphs[i].sources.len() implies (
        #[trigger] glyphs[i].sources[j]).0 == after[i].sources[j].0 by {
            assert(before[i].sources[j].0 == after[i].sources[j].0);
        }
        lemma_keyed_alike(glyphs, after);
    }
}

proof fn lemma_swapped_anchors_are_keyed(
    entries: Seq<(Seq<char>, Seq<Anchor>)>,
    old_name: Seq<char>,
    new_name: Seq<char>,
)
    requires
        entries_are_keyed(entries),
    ensures
        entries_are_keyed(swapped_anchors(entries, old_name, new_name)),
{
    let ours = anchors_of(entries, old_name);
    let theirs = anchors_of(entries, new_name);
    lemma_with_anchors(entries, old_name, theirs, new_name);
    lemma_with_anchors(with_anchors(entries, old_name, theirs), new_name, ours, old_name);
}

/// How far some swaps go, and why they go no further.
pub open spec fn swaps_stop_at(
    glyphs: Seq<GlyphView>,
    swaps: Seq<(Seq<char>, Seq<char>)>,
    i: int,
    e: InstanceError,
) -> bool {
    &&& 0 <= i < swaps.len()
    &&& !is_possible(glyphs, swaps[i])
    &&& is_missing(e, swaps[i])
    &&& forall|k: int| 0 <= k < i ==> is_possible(glyphs, #[trigger] swaps[k])
}

/// Do the glyph swaps that rules ask for, in order, each on the result of the
/// last.
///
/// The first that needs a glyph that is not there ends them.
pub fn apply_swaps(
    glyphs: &mut Vec<Glyph>,
    anchors: &mut Vec<GlyphAnchors>,
    swaps: &Vec<(String, String)>,
) -> (r: Result<(), InstanceError>)
    requires
        are_keyed(glyph::glyph_views(old(glyphs)@)),
        entries_are_keyed(anchor_entries(old(anchors)@)),
    ensures
        match r {
            Ok(_) => {
                &&& forall|k: int|
                    0 <= k < swaps@.len() ==> is_possible(
                        glyph::glyph_views(old(glyphs)@),
                        #[trigger] instance::swap_names(swaps@)[k],
                    )
                &&& glyph::glyph_views(final(glyphs)@) == glyphs_after(
                    glyph::glyph_views(old(glyphs)@),
                    instance::swap_names(swaps@),
                )
                &&& anchor_entries(final(anchors)@) == anchors_after(
                    anchor_entries(old(anchors)@),
                    instance::swap_names(swaps@),
                )
            },
            Err(e) => exists|i: int|
                #![trigger swaps_stop_at(glyph::glyph_views(old(glyphs)@), instance::swap_names(swaps@), i, e)]
                swaps_stop_at(
                    glyph::glyph_views(old(glyphs)@),
                    instance::swap_names(swaps@),
                    i,
                    e,
                ) && glyph::glyph_views(final(glyphs)@) == glyphs_after(
                    glyph::glyph_views(old(glyphs)@),
                    instance::swap_names(swaps@).take(i),
                ) && anchor_entries(final(anchors)@) == anchors_after(
                    anchor_entries(old(anchors)@),
                    instance::swap_names(swaps@).take(i),
                ),
        },
{
    let ghost all = glyph::glyph_views(glyphs@);
    let ghost entries = anchor_entries(anchors@);
    let ghost names = instance::swap_names(swaps@);
    let mut i: usize = 0;
    while i < swaps.len()
        invariant
            i <= swaps@.len(),
            all == glyph::glyph_views(old(glyphs)@),
            entries == anchor_entries(old(anchors)@),
            names == instance::swap_names(swaps@),
            are_keyed(all),
            entries_are_keyed(anchor_entries(anchors@)),
            forall|k: int| 0 <= k < i ==> is_possible(all, #[trigger] names[k]),
            glyph::glyph_views(glyphs@) == glyphs_after(all, names.take(i as int)),
            anchor_entries(anchors@) == anchors_after(entries, names.take(i as int)),
        decreases swaps.len() - i,
    {
        proof {
            assert(names[i as int] == (swaps@[i as int].0@, swaps@[i as int].1@));
            assert(names.take(i + 1).drop_last() =~= names.take(i as int));
            assert(names.take(i + 1).last() == names[i as int]);
            lemma_swaps_keep_keys(all, names.take(i as int));
            lemma_keyed_alike(all, glyphs_after(all, names.take(i as int)));
            lemma_swapped_anchors_are_keyed(
                anchor_entries(anchors@),
                names[i as int].0,
                names[i as int].1,
            );
        }
        match swap_glyphs(glyphs, anchors, &swaps[i].0, &swaps[i].1) {
            Ok(_) => {},
            Err(e) => {
                assert(swaps_stop_at(all, names, i as int, e));
                return Err(e);
            },
        }
        i = i + 1;
    }
    assert(names.take(i as int) =~= names);
    Ok(())
}

/// Swapping the same two glyphs twice leaves every glyph as it was.
pub proof fn law_swapping_glyphs_twice(
    glyphs: Seq<GlyphView>,
    old_name: Seq<char>,
    new_name: Seq<char>,
)
    requires
        are_keyed(glyphs),
        is_possible(glyphs, (old_name, new_name)),
    ensures
        swapped_glyphs(swapped_glyphs(glyphs, old_name, new_name), old_name, new_name) == glyphs,
{
    let once = swapped_glyphs(glyphs, old_name, new_name);
    let twice = swapped_glyphs(once, old_name, new_name);
    lemma_swap_keeps_keys(glyphs, old_name, new_name);
    lemma_keyed_alike(glyphs, once);
    lemma_glyph_called(glyphs, old_name);
    lemma_glyph_called(glyphs, new_name);
    let i = glyph_called(glyphs, old_name)->0;
    let j = glyph_called(glyphs, new_name)->0;
    assert forall|k: int| 0 <= k < glyphs.len() implies #[trigger] twice[k] == glyphs[k] by {
        let g = glyphs[k];
        if g.name == old_name || g.name == new_name {
            let other = if g.name == old_name {
                glyphs[j]
            } else {
                glyphs[i]
            };
            let back = if other.name == old_name {
                j
            } else {
                i
            };
            if k != i && g.name == old_name {
                if k < i {
                    assert(glyphs[k].name != glyphs[i].name);
                } else {
                    assert(glyphs[i].name != glyphs[k].name);
                }
            }
            if k != j && g.name == new_name {
                if k < j {
                    assert(glyphs[k].name != glyphs[j].name);
                } else {
                    assert(glyphs[j].name != glyphs[k].name);
                }
            }
            assert(glyphs[back] == g || old_name == new_name);
            lemma_exchange_twice(g.sources, other.sources, old_name, new_name);
            assert(twice[k].sources =~= g.sources);
        } else {
            assert(renamed_sources(
                renamed_sources(g.sources, old_name, new_name),
                old_name,
                new_name,
            ) =~= g.sources) by {
                lemma_rename_twice(g.sources, old_name, new_name);
            }
        }
    }
    assert(twice =~= glyphs);
}

proof fn lemma_rename_twice(
    a: Seq<(Map<Tag, Real>, DrawingView)>,
    old_name: Seq<char>,
    new_name: Seq<char>,
)
    ensures
        renamed_sources(renamed_sources(a, old_name, new_name), old_name, new_name) == a,
{
    let twice = renamed_sources(renamed_sources(a, old_name, new_name), old_name, new_name);
    assert forall|s: int| 0 <= s < a.len() implies #[trigger] twice[s] == a[s] by {
        assert(twice[s].1.components =~= a[s].1.components) by {
            assert forall|c: int| 0 <= c < a[s].1.components.len() implies twice[s].1.components[c]
                == a[s].1.components[c] by {
                glyph::law_swapping_names_twice(a[s].1.components[c].base, old_name, new_name);
            }
        }
    }
    assert(twice =~= a);
}

proof fn lemma_exchange_twice(
    a: Seq<(Map<Tag, Real>, DrawingView)>,
    b: Seq<(Map<Tag, Real>, DrawingView)>,
    old_name: Seq<char>,
    new_name: Seq<char>,
)
    requires
        at_distinct_places(a),
        at_distinct_places(b),
    ensures
        renamed_sources(
            exchanged_sources(
                renamed_sources(exchanged_sources(a, b), old_name, new_name),
                renamed_sources(exchanged_sources(b, a), old_name, new_name),
            ),
            old_name,
            new_name,
        ) == a,
{
    let x = renamed_sources(exchanged_sources(a, b), old_name, new_name);
    let y = renamed_sources(exchanged_sources(b, a), old_name, new_name);
    let z = renamed_sources(exchanged_sources(x, y), old_name, new_name);
    lemma_rename_twice(a, old_name, new_name);
    let plain = renamed_sources(renamed_sources(a, old_name, new_name), old_name, new_name);
    assert forall|s: int| 0 <= s < a.len() implies #[trigger] z[s] == a[s] by {
        lemma_drawing_at(b, a[s].0);
        lemma_drawing_at(y, a[s].0);
        assert(forall|k: int| 0 <= k < b.len() ==> (#[trigger] y[k]).0 == b[k].0);
        assert(plain[s] == a[s]);
        match drawing_at(b, a[s].0) {
            Some(k) => {
                assert(y[k].0 == a[s].0);
                let d = drawing_at(y, a[s].0)->0;
                if d < k {
                    assert(b[d].0 == a[s].0);
                } else if k < d {
                    assert(y[k].0 != a[s].0);
                }
                lemma_drawing_at(a, b[k].0);
                let back = drawing_at(a, b[k].0)->0;
                assert(a[s].0 == b[k].0);
                if back < s {
                    assert(a[back].0 != a[s].0);
                } else if s < back {
                    assert(a[s].0 != a[back].0);
                }
            },
            None => {
                if drawing_at(y, a[s].0) is Some {
                    let d = drawing_at(y, a[s].0)->0;
                    assert(b[d].0 == a[s].0);
                }
            },
        }
    }
    assert(z =~= a);
}

/// After a swap each of two glyphs has the anchors of the other.
pub proof fn law_swapped_anchors_trade_places(
    entries: Seq<(Seq<char>, Seq<Anchor>)>,
    old_name: Seq<char>,
    new_name: Seq<char>,
    other: Seq<char>,
)
    requires
        other != old_name,
        other != new_name,
    ensures
        ({
            let after = swapped_anchors(entries, old_name, new_name);
            &&& anchors_of(after, old_name) == anchors_of(entries, new_name)
            &&& anchors_of(after, new_name) == anchors_of(entries, old_name)
            &&& anchors_of(after, other) == anchors_of(entries, other)
        }),
{
    let ours = anchors_of(entries, old_name);
    let theirs = anchors_of(entries, new_name);
    if ours.len() == 0 && theirs.len() == 0 {
        assert(ours =~= theirs);
    } else {
        let between = with_anchors(entries, old_name, theirs);
        lemma_with_anchors(entries, old_name, theirs, other);
        lemma_with_anchors(between, new_name, ours, other);
        lemma_with_anchors(between, new_name, ours, old_name);
    }
}

/// What a font is before glyph order is known.
#[derive(Debug, Clone)]
pub struct FrontendIr {
    pub static_metadata: StaticMetadata,
    /// Each glyph once.
    pub glyphs: Vec<Glyph>,
    /// The anchors of each glyph that has any, once.
    pub anchors: Vec<GlyphAnchors>,
    /// The feature file, if there is one.
    pub features: Option<String>,
}

/// Everything pinning kerning needs that pinning the rest destroys.
#[derive(Debug)]
pub struct Pin {
    /// The metadata as it was before.
    pub source_metadata: StaticMetadata,
    /// Where we pinned, in normalized space.
    pub location: Location,
    /// The glyph swaps that rules asked for here, in the order they were done.
    pub swaps: Vec<(String, String)>,
}

/// `pinned` is what may become of some glyphs.
pub open spec fn glyphs_pin_to<
    G: Fn(&GlyphModel, &Glyph, &Location) -> Result<GlyphInstance, String>,
>(
    interpolate: G,
    static_metadata: StaticMetadata,
    glyphs: Seq<Glyph>,
    pin: Location,
    pinned: Seq<Glyph>,
) -> bool {
    &&& pinned.len() == glyphs.len()
    &&& forall|i: int|
        0 <= i < pinned.len() ==> instance::glyph_pins_to(
            interpolate,
            static_metadata,
            glyphs[i],
            pin,
            #[trigger] pinned[i],
        )
}

fn pin_glyphs<G: Fn(&GlyphModel, &Glyph, &Location) -> Result<GlyphInstance, String>>(
    static_metadata: &StaticMetadata,
    glyphs: &Vec<Glyph>,
    pin: &Location,
    interpolate: &G,
) -> (r: Result<Vec<Glyph>, BadGlyph>)
    requires
        forall|model: GlyphModel, glyph: Glyph| call_requires(*interpolate, (&model, &glyph, pin)),
    ensures
        match r {
            Ok(pinned) => glyphs_pin_to(
                *interpolate,
                *static_metadata,
                glyphs@,
                *pin,
                pinned@,
            ),
            Err(bad) => exists|i: int|
                0 <= i < glyphs@.len() && instance::glyph_fails_with(
                    *interpolate,
                    *static_metadata,
                    #[trigger] glyphs@[i],
                    *pin,
                    bad,
                ),
        },
{
    let mut pinned: Vec<Glyph> = Vec::new();
    let mut i: usize = 0;
    while i < glyphs.len()
        invariant
            i <= glyphs@.len(),
            forall|model: GlyphModel, glyph: Glyph|
                call_requires(*interpolate, (&model, &glyph, pin)),
            pinned@.len() == i,
            forall|k: int|
                0 <= k < i ==> instance::glyph_pins_to(
                    *interpolate,
                    *static_metadata,
                    glyphs@[k],
                    *pin,
                    #[trigger] pinned@[k],
                ),
        decreases glyphs.len() - i,
    {
        match instance::pin_glyph(static_metadata, &glyphs[i], pin, interpolate) {
            Ok(glyph) => {
                pinned.push(glyph);
            },
            Err(bad) => {
                assert(instance::glyph_fails_with(
                    *interpolate,
                    *static_metadata,
                    glyphs@[i as int],
                    *pin,
                    bad,
                ));
                return Err(bad);
            },
        }
        i = i + 1;
    }
    Ok(pinned)
}

/// `pinned` is what may become of the anchors of some glyphs.
pub open spec fn all_anchors_pin_to<
    A: Fn(&Vec<(Location, (Real, Real))>, &Vec<Tag>, &Location) -> Result<
        Vec<(Real, Real)>,
        String,
    >,
>(
    interpolate: A,
    static_metadata: StaticMetadata,
    anchors: Seq<GlyphAnchors>,
    pin: Location,
    pinned: Seq<GlyphAnchors>,
) -> bool {
    &&& pinned.len() == anchors.len()
    &&& forall|i: int|
        0 <= i < pinned.len() ==> instance::anchors_pin_to(
            interpolate,
            static_metadata,
            anchors[i],
            pin,
            #[trigger] pinned[i],
        )
}

/// The anchors of a glyph cannot be interpolated.
pub open spec fn is_bad_for_anchors<
    A: Fn(&Vec<(Location, (Real, Real))>, &Vec<Tag>, &Location) -> Result<
        Vec<(Real, Real)>,
        String,
    >,
>(
    interpolate: A,
    static_metadata: StaticMetadata,
    anchors: GlyphAnchors,
    pin: Location,
    bad: BadGlyph,
) -> bool {
    bad.name@ == anchors.glyph_name@ && instance::anchors_fail_with(
        interpolate,
        static_metadata,
        anchors.anchors@,
        pin,
        bad.cause,
    )
}

fn pin_all_anchors<
    A: Fn(&Vec<(Location, (Real, Real))>, &Vec<Tag>, &Location) -> Result<
        Vec<(Real, Real)>,
        String,
    >,
>(
    static_metadata: &StaticMetadata,
    anchors: &Vec<GlyphAnchors>,
    pin: &Location,
    interpolate: &A,
) -> (r: Result<Vec<GlyphAnchors>, BadGlyph>)
    requires
        forall|positions: Vec<(Location, (Real, Real))>, axes: Vec<Tag>|
            call_requires(*interpolate, (&positions, &axes, pin)),
    ensures
        match r {
            Ok(pinned) => all_anchors_pin_to(
                *interpolate,
                *static_metadata,
                anchors@,
                *pin,
                pinned@,
            ),
            Err(bad) => exists|i: int|
                0 <= i < anchors@.len() && is_bad_for_anchors(
                    *interpolate,
                    *static_metadata,
                    #[trigger] anchors@[i],
                    *pin,
                    bad,
                ),
        },
{
    let mut pinned: Vec<GlyphAnchors> = Vec::new();
    let mut i: usize = 0;
    while i < anchors.len()
        invariant
            i <= anchors@.len(),
            forall|positions: Vec<(Location, (Real, Real))>, axes: Vec<Tag>|
                call_requires(*interpolate, (&positions, &axes, pin)),
            pinned@.len() == i,
            forall|k: int|
                0 <= k < i ==> instance::anchors_pin_to(
                    *interpolate,
                    *static_metadata,
                    anchors@[k],
                    *pin,
                    #[trigger] pinned@[k],
                ),
        decreases anchors.len() - i,
    {
        match instance::pin_anchors(static_metadata, &anchors[i], pin, interpolate) {
            Ok(made) => {
                pinned.push(made);
            },
            Err(bad) => {
                assert(is_bad_for_anchors(
                    *interpolate,
                    *static_metadata,
                    anchors@[i as int],
                    *pin,
                    bad,
                ));
                return Err(bad);
            },
        }
        i = i + 1;
    }
    Ok(pinned)
}

/// Those of some swaps that replace a glyph that is there.
pub open spec fn known_swaps(
    glyphs: Seq<GlyphView>,
    swaps: Seq<(Seq<char>, Seq<char>)>,
) -> Seq<(Seq<char>, Seq<char>)>
    decreases swaps.len(),
{
    if swaps.len() == 0 {
        seq![]
    } else {
        let rest = known_swaps(glyphs, swaps.drop_last());
        if glyph_called(glyphs, swaps.last().0) is Some {
            rest.push(swaps.last())
        } else {
            rest
        }
    }
}

/// The swaps that the rules of a font ask for at a pin in user space.
pub open spec fn swaps_at<F: Fn(&CoordConverter, Real) -> Real>(
    to_design: F,
    static_metadata: StaticMetadata,
    user: Map<Tag, Real>,
    glyphs: Seq<GlyphView>,
) -> Seq<(Seq<char>, Seq<char>)> {
    match static_metadata.variations {
        Some(variations) => known_swaps(
            glyphs,
            instance::wanted_swaps(
                variations.rules@,
                design_of(to_design, static_metadata.all_source_axes@, user),
            ),
        ),
        None => seq![],
    }
}

proof fn lemma_known_swaps(
    glyphs: Seq<GlyphView>,
    swaps: Seq<(Seq<char>, Seq<char>)>,
    keep: Seq<bool>,
)
    requires
        keep.len() >= swaps.len(),
        forall|i: int|
            0 <= i < swaps.len() ==> #[trigger] keep[i] == (glyph_called(glyphs, swaps[i].0)
                is Some),
    ensures
        instance::kept_swaps(swaps, keep) == known_swaps(glyphs, swaps),
    decreases swaps.len(),
{
    if swaps.len() > 0 {
        lemma_known_swaps(glyphs, swaps.drop_last(), keep);
        assert(keep[swaps.len() - 1] == (glyph_called(glyphs, swaps.last().0) is Some));
    }
}

fn find_swaps<F: Fn(&CoordConverter, Real) -> Real>(
    static_metadata: &StaticMetadata,
    user: &Location,
    glyphs: &Vec<Glyph>,
    to_design: &F,
) -> (r: Vec<(String, String)>)
    requires
        is_conversion(*to_design),
    ensures
        instance::swap_names(r@) == swaps_at(
            *to_design,
            *static_metadata,
            user@,
            glyph::glyph_views(glyphs@),
        ),
{
    match &static_metadata.variations {
        None => {
            let none: Vec<(String, String)> = Vec::new();
            assert(instance::swap_names(none@) =~= seq![]);
            none
        },
        Some(variations) => {
            let design: Location = design_pin(static_metadata, user, to_design);
            let known = |name: &String| -> (there: bool)
                ensures
                    there == (glyph_called(glyph::glyph_views(glyphs@), name@) is Some),
                { find_glyph(glyphs, name).is_some() };
            let swaps: Vec<(String, String)> = instance::rule_swaps(variations, &design, &known);
            proof {
                let wanted = instance::wanted_swaps(variations.rules@, design@);
                let keep = choose|keep: Seq<bool>| #[trigger]
                    instance::answered(known, wanted, keep) && instance::swap_names(swaps@)
                        == instance::kept_swaps(wanted, keep);
                assert forall|i: int| 0 <= i < wanted.len() implies #[trigger] keep[i] == (
                glyph_called(glyph::glyph_views(glyphs@), wanted[i].0) is Some) by {
                    assert(instance::says(known, wanted[i].0, keep[i]));
                }
                lemma_known_swaps(glyph::glyph_views(glyphs@), wanted, keep);
            }
            swaps
        },
    }
}

/// The work that pinning a font needs done with numbers themselves.
#[derive(Debug)]
pub struct FontArithmetic<N, G, A, F, M> {
    /// Where a location is in normalized space.
    pub normalize: N,
    /// What a glyph is at a location.
    pub interpolate_glyph: G,
    /// Where an anchor is at a location.
    pub interpolate_anchor: A,
    /// A position in design space.
    pub to_design: F,
    /// What pinning static metadata needs.
    pub metadata: M,
}

/// What a pin makes of a font along the way.
pub struct Pinning {
    /// Where the pin is in user space.
    pub user: Location,
    /// Where the named instances are in normalized space.
    pub instances: Seq<Option<Location>>,
    /// The glyphs as they are at the pin.
    pub glyphs: Seq<Glyph>,
    /// The anchors as they are at the pin.
    pub anchors: Seq<GlyphAnchors>,
    /// The static metadata of the instance, with every name.
    pub metadata: StaticMetadata,
}

/// Whether a font has a feature file with a `conditionset`.
pub open spec fn has_conditionset(ir: FrontendIr) -> bool {
    ir.features matches Some(fea) && fea_declares(fea@)
}

/// The named instance a pin is on, if it is on one.
pub open spec fn instance_of(
    static_metadata: StaticMetadata,
    spec: InstanceSpec,
    pin: Location,
    places: Seq<Option<Location>>,
) -> Option<NamedInstance> {
    match instance::instance_at(static_metadata.named_instances@, spec, pin@, places) {
        Some(i) => Some(static_metadata.named_instances@[i]),
        None => None,
    }
}

/// `out` and `pin` are what a pin may make of a font, by way of `through`.
pub open spec fn font_pins_to<
    N: Fn(&StaticMetadata, &Location) -> Result<Location, String>,
    G: Fn(&GlyphModel, &Glyph, &Location) -> Result<GlyphInstance, String>,
    A: Fn(&Vec<(Location, (Real, Real))>, &Vec<Tag>, &Location) -> Result<
        Vec<(Real, Real)>,
        String,
    >,
    F: Fn(&CoordConverter, Real) -> Real,
    I: Fn(&Vec<(Location, Real)>, &Vec<Tag>, &Location) -> Result<Option<Real>, String>,
    S: Fn(&Vec<Location>, &Location) -> Vec<(Location, Real)>,
    W: Fn(&Vec<(Real, Real)>) -> Real,
    H: Fn(Real) -> i32,
    B: Fn(&NameInputs) -> Vec<(NameKey, String)>,
    C: Fn(Real) -> u16,
    D: Fn(Real) -> u16,
>(
    with: FontArithmetic<N, G, A, F, PinArithmetic<I, S, W, H, B, C, D>>,
    ir: FrontendIr,
    spec: InstanceSpec,
    through: Pinning,
    out: FrontendIr,
    pin: Pin,
) -> bool {
    let whole = ir.static_metadata;
    let swaps = swaps_at(
        with.to_design,
        whole,
        through.user@,
        glyph::glyph_views(through.glyphs),
    );
    &&& instance::is_at(with.normalize, whole, spec, through.user, pin.location)
    &&& !has_conditionset(ir)
    &&& glyphs_pin_to(with.interpolate_glyph, whole, ir.glyphs@, pin.location, through.glyphs)
    &&& all_anchors_pin_to(
        with.interpolate_anchor,
        whole,
        ir.anchors@,
        pin.location,
        through.anchors,
    )
    &&& instance::swap_names(pin.swaps@) == swaps
    &&& forall|k: int|
        0 <= k < swaps.len() ==> is_possible(
            glyph::glyph_views(through.glyphs),
            #[trigger] swaps[k],
        )
    &&& glyph::glyph_views(out.glyphs@) == glyphs_after(glyph::glyph_views(through.glyphs), swaps)
    &&& anchor_entries(out.anchors@) == anchors_after(anchor_entries(through.anchors), swaps)
    &&& instance::are_instance_places(with.normalize, whole, through.instances)
    &&& pin_metadata::static_metadata_pins_to(
        with.metadata,
        whole,
        pin.location,
        through.user@,
        instance_of(whole, spec, pin.location, through.instances),
        through.metadata,
    )
    &&& out.static_metadata == (StaticMetadata {
        names: out.static_metadata.names,
        ..through.metadata
    })
    &&& static_metadata::records(out.static_metadata.names@) == surviving_names(
        whole,
        static_metadata::records(through.metadata.names@),
    )
    &&& out.features == ir.features
    &&& pin.source_metadata == whole
}

/// `e` is why a pin at `at` may fail. `glyphs` and `anchors` are what had been
/// pinned by then, and each step is only reached where the ones before succeed.
pub open spec fn pin_fails_at<
    N: Fn(&StaticMetadata, &Location) -> Result<Location, String>,
    G: Fn(&GlyphModel, &Glyph, &Location) -> Result<GlyphInstance, String>,
    A: Fn(&Vec<(Location, (Real, Real))>, &Vec<Tag>, &Location) -> Result<
        Vec<(Real, Real)>,
        String,
    >,
    F: Fn(&CoordConverter, Real) -> Real,
    I: Fn(&Vec<(Location, Real)>, &Vec<Tag>, &Location) -> Result<Option<Real>, String>,
    S: Fn(&Vec<Location>, &Location) -> Vec<(Location, Real)>,
    W: Fn(&Vec<(Real, Real)>) -> Real,
    H: Fn(Real) -> i32,
    B: Fn(&NameInputs) -> Vec<(NameKey, String)>,
    C: Fn(Real) -> u16,
    D: Fn(Real) -> u16,
>(
    with: FontArithmetic<N, G, A, F, PinArithmetic<I, S, W, H, B, C, D>>,
    ir: FrontendIr,
    user: Location,
    at: Location,
    glyphs: Seq<Glyph>,
    anchors: Seq<GlyphAnchors>,
    e: InstanceError,
) -> bool {
    let whole = ir.static_metadata;
    let all_glyphs_pin = glyphs_pin_to(with.interpolate_glyph, whole, ir.glyphs@, at, glyphs);
    let all_anchors_pin = all_anchors_pin_to(
        with.interpolate_anchor,
        whole,
        ir.anchors@,
        at,
        anchors,
    );
    let views = glyph::glyph_views(glyphs);
    let swaps = swaps_at(with.to_design, whole, user@, views);
    match e {
        InstanceError::Pin(_) => false,
        InstanceError::SourceWithFeaConditionSet => has_conditionset(ir),
        InstanceError::BadGlyph(bad) => {
            &&& !has_conditionset(ir)
            &&& {
                ||| exists|i: int|
                    0 <= i < ir.glyphs@.len() && instance::glyph_fails_with(
                        with.interpolate_glyph,
                        whole,
                        #[trigger] ir.glyphs@[i],
                        at,
                        bad,
                    )
                ||| all_glyphs_pin && exists|i: int|
                    0 <= i < ir.anchors@.len() && is_bad_for_anchors(
                        with.interpolate_anchor,
                        whole,
                        #[trigger] ir.anchors@[i],
                        at,
                        bad,
                    )
            }
        },
        InstanceError::RuleSubstituteMissing { .. } => {
            &&& !has_conditionset(ir)
            &&& all_glyphs_pin
            &&& all_anchors_pin
            &&& exists|i: int| swaps_stop_at(views, swaps, i, e)
        },
        InstanceError::Delta(cause) => {
            &&& !has_conditionset(ir)
            &&& all_glyphs_pin
            &&& all_anchors_pin
            &&& forall|k: int| 0 <= k < swaps.len() ==> is_possible(views, #[trigger] swaps[k])
            &&& instance::numbers_fail_with(with.metadata.interpolate, whole, at, cause)
        },
    }
}

/// `e` is why an instance of a font may not be built.
pub open spec fn font_fails_with<
    N: Fn(&StaticMetadata, &Location) -> Result<Location, String>,
    G: Fn(&GlyphModel, &Glyph, &Location) -> Result<GlyphInstance, String>,
    A: Fn(&Vec<(Location, (Real, Real))>, &Vec<Tag>, &Location) -> Result<
        Vec<(Real, Real)>,
        String,
    >,
    F: Fn(&CoordConverter, Real) -> Real,
    I: Fn(&Vec<(Location, Real)>, &Vec<Tag>, &Location) -> Result<Option<Real>, String>,
    S: Fn(&Vec<Location>, &Location) -> Vec<(Location, Real)>,
    W: Fn(&Vec<(Real, Real)>) -> Real,
    H: Fn(Real) -> i32,
    B: Fn(&NameInputs) -> Vec<(NameKey, String)>,
    C: Fn(Real) -> u16,
    D: Fn(Real) -> u16,
>(
    with: FontArithmetic<N, G, A, F, PinArithmetic<I, S, W, H, B, C, D>>,
    ir: FrontendIr,
    spec: InstanceSpec,
    e: InstanceError,
) -> bool {
    match e {
        InstanceError::Pin(e) => instance::is_nowhere(with.normalize, ir.static_metadata, spec, e),
        _ => exists|user: Location, at: Location, glyphs: Seq<Glyph>, anchors: Seq<GlyphAnchors>|
            instance::is_at(with.normalize, ir.static_metadata, spec, user, at)
                && #[trigger] pin_fails_at(with, ir, user, at, glyphs, anchors, e),
    }
}

proof fn lemma_pinned_glyphs_are_keyed<
    G: Fn(&GlyphModel, &Glyph, &Location) -> Result<GlyphInstance, String>,
>(
    interpolate: G,
    static_metadata: StaticMetadata,
    glyphs: Seq<Glyph>,
    pin: Location,
    pinned: Seq<Glyph>,
)
    requires
        are_keyed(glyph::glyph_views(glyphs)),
        glyphs_pin_to(interpolate, static_metadata, glyphs, pin, pinned),
    ensures
        are_keyed(glyph::glyph_views(pinned)),
{
    let a = glyph::glyph_views(glyphs);
    let b = glyph::glyph_views(pinned);
    assert forall|i: int| 0 <= i < b.len() implies (#[trigger] b[i]).name == a[i].name
        && b[i].sources.len() == 1 by {
        assert(instance::glyph_pins_to(interpolate, static_metadata, glyphs[i], pin, pinned[i]));
    }
    assert forall|i: int, j: int| 0 <= i < j < b.len() implies (#[trigger] b[i]).name != (
    #[trigger] b[j]).name by {
        assert(a[i].name != a[j].name);
    }
}

proof fn lemma_pinned_anchors_are_keyed<
    A: Fn(&Vec<(Location, (Real, Real))>, &Vec<Tag>, &Location) -> Result<
        Vec<(Real, Real)>,
        String,
    >,
>(
    interpolate: A,
    static_metadata: StaticMetadata,
    anchors: Seq<GlyphAnchors>,
    pin: Location,
    pinned: Seq<GlyphAnchors>,
)
    requires
        entries_are_keyed(anchor_entries(anchors)),
        all_anchors_pin_to(interpolate, static_metadata, anchors, pin, pinned),
    ensures
        entries_are_keyed(anchor_entries(pinned)),
{
    let a = anchor_entries(anchors);
    let b = anchor_entries(pinned);
    assert forall|i: int| 0 <= i < b.len() implies (#[trigger] b[i]).0 == a[i].0 by {
        assert(instance::anchors_pin_to(interpolate, static_metadata, anchors[i], pin, pinned[i]));
    }
    assert forall|i: int, j: int| 0 <= i < j < b.len() implies (#[trigger] b[i]).0 != (
    #[trigger] b[j]).0 by {
        assert(a[i].0 != a[j].0);
    }
}

/// Rewrite everything but kerning as the instance `spec` asks for.
///
/// Must run before glyph order is worked out, because an instance is
/// interpolated first and filtered afterwards. Feature variation rules become
/// plain glyph swaps, done on the glyphs just pinned. Static metadata comes
/// last, because everything else reads the axes of the source. Global metrics
/// are not here: they are pinned as they are built, see
/// [`build_global_metrics`](crate::instance::build_global_metrics).
pub fn pin_frontend<
    N: Fn(&StaticMetadata, &Location) -> Result<Location, String>,
    G: Fn(&GlyphModel, &Glyph, &Location) -> Result<GlyphInstance, String>,
    A: Fn(&Vec<(Location, (Real, Real))>, &Vec<Tag>, &Location) -> Result<
        Vec<(Real, Real)>,
        String,
    >,
    F: Fn(&CoordConverter, Real) -> Real,
    I: Fn(&Vec<(Location, Real)>, &Vec<Tag>, &Location) -> Result<Option<Real>, String>,
    S: Fn(&Vec<Location>, &Location) -> Vec<(Location, Real)>,
    W: Fn(&Vec<(Real, Real)>) -> Real,
    H: Fn(Real) -> i32,
    B: Fn(&NameInputs) -> Vec<(NameKey, String)>,
    C: Fn(Real) -> u16,
    D: Fn(Real) -> u16,
>(
    ir: FrontendIr,
    spec: &InstanceSpec,
    with: &FontArithmetic<N, G, A, F, PinArithmetic<I, S, W, H, B, C, D>>,
) -> (r: Result<(FrontendIr, Pin), InstanceError>)
    requires
        are_keyed(glyph::glyph_views(ir.glyphs@)),
        entries_are_keyed(anchor_entries(ir.anchors@)),
        forall|user: Location| call_requires(with.normalize, (&ir.static_metadata, &user)),
        forall|model: GlyphModel, glyph: Glyph, at: Location|
            call_requires(with.interpolate_glyph, (&model, &glyph, &at)),
        forall|positions: Vec<(Location, (Real, Real))>, axes: Vec<Tag>, at: Location|
            call_requires(with.interpolate_anchor, (&positions, &axes, &at)),
        is_conversion(with.to_design),
        forall|masters: Vec<(Location, Real)>, axes: Vec<Tag>, at: Location|
            call_requires(with.metadata.interpolate, (&masters, &axes, &at)),
        numeric::is_model(with.metadata.scalars),
        numeric::is_sum(with.metadata.weigh),
        numeric::is_map(with.metadata.hundreds),
        forall|inputs: NameInputs| call_requires(with.metadata.build_names, (&inputs,)),
        numeric::is_map(with.metadata.weight_class),
        numeric::is_map(with.metadata.width_class),
    ensures
        match r {
            Ok((out, pin)) => {
                &&& exists|through: Pinning| font_pins_to(*with, ir, *spec, through, out, pin)
                &&& ir.static_metadata.is_keyed() && pin_metadata::builds_keyed_tables(
                    with.metadata.build_names,
                ) ==> out.static_metadata.is_keyed()
            },
            Err(e) => font_fails_with(*with, ir, *spec, e),
        },
{
    let ghost whole = ir;
    let (user, location): (Location, Location) = match instance::find_pin(
        &ir.static_metadata,
        spec,
        &with.normalize,
    ) {
        Ok(found) => found,
        Err(e) => {
            return Err(InstanceError::Pin(e));
        },
    };
    let ghost nothing = Seq::<Glyph>::empty();
    let ghost nowhere = Seq::<GlyphAnchors>::empty();
    if let Some(fea) = &ir.features {
        if fea_declares_a_conditionset(fea.as_str()) {
            assert(pin_fails_at(
                *with,
                whole,
                user,
                location,
                nothing,
                nowhere,
                InstanceError::SourceWithFeaConditionSet,
            ));
            return Err(InstanceError::SourceWithFeaConditionSet);
        }
    }
    let mut glyphs: Vec<Glyph> = match pin_glyphs(
        &ir.static_metadata,
        &ir.glyphs,
        &location,
        &with.interpolate_glyph,
    ) {
        Ok(glyphs) => glyphs,
        Err(bad) => {
            let e = InstanceError::BadGlyph(bad);
            assert(pin_fails_at(*with, whole, user, location, nothing, nowhere, e));
            return Err(e);
        },
    };
    let mut anchors: Vec<GlyphAnchors> = match pin_all_anchors(
        &ir.static_metadata,
        &ir.anchors,
        &location,
        &with.interpolate_anchor,
    ) {
        Ok(anchors) => anchors,
        Err(bad) => {
            let e = InstanceError::BadGlyph(bad);
            assert(pin_fails_at(*with, whole, user, location, glyphs@, nowhere, e));
            return Err(e);
        },
    };
    let ghost pinned_glyphs = glyphs@;
    let ghost pinned_anchors = anchors@;
    proof {
        lemma_pinned_glyphs_are_keyed(
            with.interpolate_glyph,
            ir.static_metadata,
            ir.glyphs@,
            location,
            glyphs@,
        );
        lemma_pinned_anchors_are_keyed(
            with.interpolate_anchor,
            ir.static_metadata,
            ir.anchors@,
            location,
            anchors@,
        );
    }
    let swaps: Vec<(String, String)> = find_swaps(
        &ir.static_metadata,
        &user,
        &glyphs,
        &with.to_design,
    );
    match apply_swaps(&mut glyphs, &mut anchors, &swaps) {
        Ok(_) => {},
        Err(e) => {
            assert(pin_fails_at(*with, whole, user, location, pinned_glyphs, pinned_anchors, e));
            return Err(e);
        },
    }
    let places: Vec<Option<Location>> = instance::instance_places(&ir.static_metadata, &with.normalize);
    let ni: Option<&NamedInstance> = instance::instance_among(
        &ir.static_metadata,
        spec,
        &location,
        &places,
    );
    let mut metadata: StaticMetadata = match pin_metadata::pin_static_metadata(
        &ir.static_metadata,
        &location,
        &user,
        ni,
        &with.metadata,
    ) {
        Ok(metadata) => metadata,
        Err(cause) => {
            let e = InstanceError::Delta(cause);
            assert(pin_fails_at(*with, whole, user, location, pinned_glyphs, pinned_anchors, e));
            return Err(e);
        },
    };
    proof {
        if ir.static_metadata.is_keyed() && pin_metadata::builds_keyed_tables(
            with.metadata.build_names,
        ) {
            pin_metadata::law_pinned_metadata_is_keyed(
                with.metadata,
                ir.static_metadata,
                location,
                user@,
                instance_of(ir.static_metadata, *spec, location, places@),
                metadata,
            );
        }
    }
    let ghost through = Pinning {
        user,
        instances: places@,
        glyphs: pinned_glyphs,
        anchors: pinned_anchors,
        metadata,
    };
    prune_variable_names(&mut metadata, &ir.static_metadata);
    let out = FrontendIr { static_metadata: metadata, glyphs, anchors, features: ir.features };
    let pin = Pin { source_metadata: ir.static_metadata, location, swaps };
    assert(font_pins_to(*with, whole, *spec, through, out, pin));
    Ok((out, pin))
}

/// Kerning pairs after several swaps, each on the result of the last.
pub open spec fn kerns_after(
    kerns: Seq<(PairView, Real)>,
    swaps: Seq<(Seq<char>, Seq<char>)>,
) -> Seq<(PairView, Real)>
    decreases swaps.len(),
{
    if swaps.len() == 0 {
        kerns
    } else {
        kerns_after(kerns, swaps.drop_last()).map_values(
            |k: (PairView, Real)|
                (glyph::swapped_pair(k.0, swaps.last().0, swaps.last().1), k.1),
        )
    }
}

/// Kerning groups after several swaps, each on the result of the last.
pub open spec fn groups_after(
    groups: Seq<(GroupView, Seq<Seq<char>>)>,
    swaps: Seq<(Seq<char>, Seq<char>)>,
) -> Seq<(GroupView, Seq<Seq<char>>)>
    decreases swaps.len(),
{
    if swaps.len() == 0 {
        groups
    } else {
        groups_after(groups, swaps.drop_last()).map_values(
            |g: (GroupView, Seq<Seq<char>>)|
                (g.0, glyph::swapped_members(g.1, swaps.last().0, swaps.last().1)),
        )
    }
}

/// Reduce every source's kerning to the one instance at the pin, which is
/// then the only kerning there is.
///
/// `instances` holds the kerning at `locations`, wherever there is any.
/// Nothing comes of a font without kerning. This is the other half of
/// [`pin_frontend`]'s glyph swaps: interpolate, then swap.
pub fn pin_kerning<
    S: Fn(&Vec<Location>, &Location) -> Vec<(Location, Real)>,
    W: Fn(&Vec<(Real, Real)>) -> Real,
>(
    locations: Option<&Vec<Location>>,
    instances: &Vec<KerningInstance>,
    pin: &Pin,
    scalars: &S,
    weigh: &W,
) -> (r: Option<KerningInstance>)
    requires
        numeric::is_model(*scalars),
        numeric::is_sum(*weigh),
    ensures
        r is Some <==> locations is Some && locations->0@.len() > 0,
        r matches Some(made) ==> {
            &&& made.location@ == pin.source_metadata.home()
            &&& glyph::kern_view(made.kerns@) == kerns_after(
                kerning::kerns_at(
                    *scalars,
                    *weigh,
                    instances@,
                    coords::tags_of(pin.source_metadata.axes@),
                    pin.location@,
                ),
                instance::swap_names(pin.swaps@),
            )
            &&& glyph::group_view(made.groups@) == groups_after(
                kerning::default_groups(instances@),
                instance::swap_names(pin.swaps@),
            )
            &&& (forall|i: int| 0 <= i < instances@.len() ==> (#[trigger] instances@[i]).is_keyed())
                ==> made.is_keyed()
        },
{
    match locations {
        None => {
            return None;
        },
        Some(locations) => {
            if locations.len() == 0 {
                return None;
            }
        },
    }
    let mut made: KerningInstance = kerning::pin_kerning(
        &pin.source_metadata,
        instances,
        &pin.location,
        scalars,
        weigh,
    );
    let ghost kerns = glyph::kern_view(made.kerns@);
    let ghost groups = glyph::group_view(made.groups@);
    let ghost names = instance::swap_names(pin.swaps@);
    let ghost keyed = made.is_keyed();
    let mut i: usize = 0;
    while i < pin.swaps.len()
        invariant
            i <= pin.swaps@.len(),
            names == instance::swap_names(pin.swaps@),
            keyed ==> made.is_keyed(),
            made.location@ == pin.source_metadata.home(),
            glyph::kern_view(made.kerns@) == kerns_after(kerns, names.take(i as int)),
            glyph::group_view(made.groups@) == groups_after(groups, names.take(i as int)),
        decreases pin.swaps.len() - i,
    {
        assert(names.take(i + 1).drop_last() =~= names.take(i as int));
        assert(names.take(i + 1).last() == (pin.swaps@[i as int].0@, pin.swaps@[i as int].1@));
        glyph::swap_kerning(&mut made, &pin.swaps[i].0, &pin.swaps[i].1);
        i = i + 1;
    }
    assert(names.take(i as int) =~= names);
    Some(made)
}

/// However many glyphs are swapped, no two kerning pairs collide.
pub proof fn law_swaps_keep_pairs_apart(
    kerns: Seq<(PairView, Real)>,
    swaps: Seq<(Seq<char>, Seq<char>)>,
    i: int,
    j: int,
)
    requires
        0 <= i < kerns.len(),
        0 <= j < kerns.len(),
        kerns[i].0 != kerns[j].0,
    ensures
        kerns_after(kerns, swaps).len() == kerns.len(),
        kerns_after(kerns, swaps)[i].0 != kerns_after(kerns, swaps)[j].0,
    decreases swaps.len(),
{
    if swaps.len() > 0 {
        law_swaps_keep_pairs_apart(kerns, swaps.drop_last(), i, j);
        let before = kerns_after(kerns, swaps.drop_last());
        let after = kerns_after(kerns, swaps);
        if after[i].0 == after[j].0 {
            glyph::law_swapped_pairs_do_not_collide(
                before[i].0,
                before[j].0,
                swaps.last().0,
                swaps.last().1,
            );
        }
    }
}

/// A line declares a `conditionset` if the word stands in it with nothing right
/// before or behind that a word can go on with: no letter or digit of ASCII, no
/// underscore and no full stop.
pub proof fn law_a_whole_word_declares(front: Seq<char>, back: Seq<char>)
    requires
        front.len() > 0 ==> !('a' <= front.last() <= 'z') && !('A' <= front.last() <= 'Z') && !('0'
            <= front.last() <= '9') && front.last() != '_' && front.last() != '.',
        back.len() > 0 ==> !('a' <= back[0] <= 'z') && !('A' <= back[0] <= 'Z') && !('0' <= back[0]
            <= '9') && back[0] != '_' && back[0] != '.',
    ensures
        declares(front + "conditionset"@ + back),
{
    let word = "conditionset"@;
    let line = front + word + back;
    let at = front.len() as int;
    assert(line.subrange(at, at + word.len()) =~= word);
    assert(is_token_at(line, word, at));
}

/// A line that declares a `conditionset` has the word somewhere, and next to it
/// nothing that a word can go on with.
pub proof fn law_only_a_whole_word_declares(line: Seq<char>) -> (at: int)
    requires
        declares(line),
    ensures
        0 <= at <= line.len() - 12,
        forall|k: int| 0 <= k < 12 ==> line[at + k] == #[trigger] "conditionset"@[k],
        at > 0 ==> !('a' <= line[at - 1] <= 'z') && !('A' <= line[at - 1] <= 'Z') && !('0' <= line[at
            - 1] <= '9') && line[at - 1] != '_' && line[at - 1] != '.',
        at + 12 < line.len() ==> !('a' <= line[at + 12] <= 'z') && !('A' <= line[at + 12] <= 'Z')
            && !('0' <= line[at + 12] <= '9') && line[at + 12] != '_' && line[at + 12] != '.',
{
    reveal_strlit("conditionset");
    let word = "conditionset"@;
    let at = choose|at: int| is_token_at(line, word, at);
    assert forall|k: int| 0 <= k < 12 implies line[at + k] == #[trigger] word[k] by {
        assert(line.subrange(at, at + word.len())[k] == word[k]);
    }
    at
}

/// A comment runs from the first number sign of a line to its end.
pub proof fn law_comments_run_to_the_end_of_a_line(code: Seq<char>, comment: Seq<char>)
    requires
        !code.contains('#'),
    ensures
        uncommented(code) == code,
        uncommented(code.push('#') + comment) == code,
{
    text::lemma_first_at(code, '#');
    if let Some(i) = text::first_at(code, '#') {
        assert(code.contains(code[i]));
    }
    let line = code.push('#') + comment;
    text::lemma_first_at(line, '#');
    assert(line[code.len() as int] == '#');
    match text::first_at(line, '#') {
        Some(i) => {
            if i < code.len() {
                assert(code[i] == line[i]);
                assert(code.contains(code[i]));
            }
            assert(i == code.len());
            assert(line.take(i) =~= code);
        },
        None => {},
    }
}

/// A feature file is read line by line, each without its comment.
pub proof fn law_feature_files_are_read_line_by_line(fea: Seq<char>, line: Seq<char>)
    requires
        !line.contains('\n'),
    ensures
        fea_declares(line) <==> declares(uncommented(line)),
        fea_declares(fea.push('\n') + line) <==> fea_declares(fea) || declares(uncommented(line)),
{
    text::law_strings_are_split_at_separators(fea, '\n', line);
    let one = text::split(line, '\n');
    assert(one[0] == line);
    let before = text::split(fea, '\n');
    let after = text::split(fea.push('\n') + line, '\n');
    assert(after[before.len() as int] == line);
    if fea_declares(fea) {
        let i = choose|i: int|
            0 <= i < text::split(fea, '\n').len() && declares(
                uncommented(#[trigger] text::split(fea, '\n')[i]),
            );
        assert(after[i] == before[i]);
    }
    if fea_declares(fea.push('\n') + line) {
        let i = choose|i: int|
            0 <= i < text::split(fea.push('\n') + line, '\n').len() && declares(
                uncommented(#[trigger] text::split(fea.push('\n') + line, '\n')[i]),
            );
        if i < before.len() {
            assert(after[i] == before[i]);
        }
    }
}

/// On every axis of a font a pin in design space is where the user is on it, or
/// else at its default, as the axis itself converts it. It is on no other axis.
pub proof fn law_pins_are_converted_axis_by_axis<F: Fn(&CoordConverter, Real) -> Real>(
    f: F,
    axes: Seq<Axis>,
    user: Map<Tag, Real>,
    tag: Tag,
    i: int,
)
    ensures
        design_of(f, axes, user).contains_key(tag) <==> exists|k: int|
            0 <= k < axes.len() && (#[trigger] axes[k]).tag == tag,
        0 <= i < axes.len() && axes[i].tag == tag && (forall|k: int|
            i < k < axes.len() ==> (#[trigger] axes[k]).tag != tag) ==> design_of(
            f,
            axes,
            user,
        )[tag] == converted(
            f,
            axes[i].converter,
            if user.contains_key(tag) {
                user[tag]
            } else {
                axes[i].default
            },
        ),
    decreases axes.len(),
{
    if axes.len() > 0 {
        let rest = axes.drop_last();
        law_pins_are_converted_axis_by_axis(f, rest, user, tag, i);
        let last = axes.len() - 1;
        assert(axes[last] == axes.last());
        assert(forall|k: int| 0 <= k < rest.len() ==> #[trigger] rest[k] == axes[k]);
        if exists|k: int| 0 <= k < rest.len() && (#[trigger] rest[k]).tag == tag {
            let k = choose|k: int| 0 <= k < rest.len() && (#[trigger] rest[k]).tag == tag;
            assert(axes[k].tag == tag);
        }
        if exists|k: int| 0 <= k < axes.len() && (#[trigger] axes[k]).tag == tag {
            let k = choose|k: int| 0 <= k < axes.len() && (#[trigger] axes[k]).tag == tag;
            if k < last {
                assert(rest[k].tag == tag);
            }
        }
        if 0 <= i < last {
            assert(rest[i] == axes[i]);
        }
    }
}

/// Of the records of a font, in order, those with ids up to 255 stay, and so do
/// those that are neither the label of an axis nor a name of an instance.
pub proof fn law_records_are_pruned_one_by_one(
    source: StaticMetadata,
    names: Seq<(NameKey, Seq<char>)>,
    record: (NameKey, Seq<char>),
)
    ensures
        surviving_names(source, Seq::empty()).len() == 0,
        ({
            let labels = exists|i: int|
                0 <= i < source.axes@.len() && (#[trigger] source.axes@[i]).ui_label_name@
                    == record.1;
            let names_one = exists|i: int|
                0 <= i < source.named_instances@.len() && ((
                #[trigger] source.named_instances@[i]).name@ == record.1
                    || source.named_instances@[i].postscript_name is Some
                    && source.named_instances@[i].postscript_name->0@ == record.1);
            surviving_names(source, names.push(record)) == if record.0.name_id <= 255 || !labels
                && !names_one {
                surviving_names(source, names).push(record)
            } else {
                surviving_names(source, names)
            }
        }),
{
    assert(names.push(record).drop_last() =~= names);
    if exists|i: int|
        0 <= i < source.named_instances@.len() && ((#[trigger] source.named_instances@[i]).name@
            == record.1 || source.named_instances@[i].postscript_name is Some
            && source.named_instances@[i].postscript_name->0@ == record.1) {
        let i = choose|i: int|
            0 <= i < source.named_instances@.len() && ((#[trigger] source.named_instances@[i]).name@
                == record.1 || source.named_instances@[i].postscript_name is Some
                && source.named_instances@[i].postscript_name->0@ == record.1);
        assert(names_instance(source.named_instances@[i], record.1));
    }
    if exists|i: int|
        0 <= i < source.named_instances@.len() && names_instance(
            #[trigger] source.named_instances@[i],
            record.1,
        ) {
        let i = choose|i: int|
            0 <= i < source.named_instances@.len() && names_instance(
                #[trigger] source.named_instances@[i],
                record.1,
            );
        assert(source.named_instances@[i].name@ == record.1
            || source.named_instances@[i].postscript_name is Some
            && source.named_instances@[i].postscript_name->0@ == record.1);
    }
}

/// Where two glyphs that trade places both have a drawing, each gets the
/// outlines and the width of the other, and keeps its height and its vertical
/// origin. Components point to the other of the two.
pub proof fn law_glyphs_trade_drawings_place_by_place(
    glyphs: Seq<GlyphView>,
    a: int,
    b: int,
    i: int,
    j: int,
    k: int,
)
    requires
        are_keyed(glyphs),
        0 <= a < glyphs.len(),
        0 <= b < glyphs.len(),
        a != b,
        0 <= i < glyphs[a].sources.len(),
        0 <= j < glyphs[b].sources.len(),
        glyphs[a].sources[i].0 == glyphs[b].sources[j].0,
        0 <= k < glyphs[b].sources[j].1.components.len(),
    ensures
        ({
            let at = glyphs[a].sources[i];
            let from = glyphs[b].sources[j].1;
            let one = swapped_glyphs(glyphs, glyphs[a].name, glyphs[b].name)[a].sources[i];
            let other = swapped_glyphs(glyphs, glyphs[b].name, glyphs[a].name)[a].sources[i];
            &&& one.0 == at.0
            &&& one.1.width == from.width
            &&& one.1.contours == from.contours
            &&& one.1.components.len() == from.components.len()
            &&& one.1.components[k].base == glyph::swapped_name(
                from.components[k].base,
                glyphs[a].name,
                glyphs[b].name,
            )
            &&& one.1.components[k].transform == from.components[k].transform
            &&& one.1.components[k].anchor == from.components[k].anchor
            &&& one.1.height == at.1.height
            &&& one.1.vertical_origin == at.1.vertical_origin
            &&& other.1.width == from.width
            &&& other.1.contours == from.contours
            &&& other.1.height == at.1.height
        }),
{
    lemma_glyph_called(glyphs, glyphs[a].name);
    lemma_glyph_called(glyphs, glyphs[b].name);
    if a < b {
        assert(glyphs[a].name != glyphs[b].name);
    } else {
        assert(glyphs[b].name != glyphs[a].name);
    }
    let c = glyph_called(glyphs, glyphs[b].name)->0;
    assert(glyphs[b].name == glyphs[b].name);
    if c < b {
        assert(glyphs[c].name != glyphs[b].name);
    } else if b < c {
        assert(glyphs[b].name != glyphs[c].name);
    }
    assert(c == b);
    let sources = glyphs[b].sources;
    assert(at_distinct_places(sources));
    lemma_drawing_at(sources, glyphs[a].sources[i].0);
    assert(sources[j].0 == glyphs[a].sources[i].0);
    let d = drawing_at(sources, glyphs[a].sources[i].0)->0;
    if d < j {
        assert(sources[d].0 != sources[j].0);
    } else if j < d {
        assert(sources[j].0 != sources[d].0);
    }
    assert(d == j);
    let traded = exchanged_sources(glyphs[a].sources, sources);
    assert(traded[i] == exchanged_source(glyphs[a].sources[i], sources));
}

/// A swap leaves the name, the code points and the place of every glyph alone,
/// and of glyphs that are neither of the two it changes no more than which of
/// the two their components point to.
pub proof fn law_other_glyphs_keep_their_drawings(
    glyphs: Seq<GlyphView>,
    old_name: Seq<char>,
    new_name: Seq<char>,
    a: int,
    i: int,
    k: int,
)
    requires
        0 <= a < glyphs.len(),
    ensures
        ({
            let was = glyphs[a];
            let now = swapped_glyphs(glyphs, old_name, new_name)[a];
            &&& swapped_glyphs(glyphs, old_name, new_name).len() == glyphs.len()
            &&& now.name == was.name
            &&& now.emit_to_binary == was.emit_to_binary
            &&& now.codepoints == was.codepoints
            &&& now.sources.len() == was.sources.len()
            &&& was.name != old_name && was.name != new_name && 0 <= i < was.sources.len() ==> {
                &&& now.sources[i].0 == was.sources[i].0
                &&& now.sources[i].1.width == was.sources[i].1.width
                &&& now.sources[i].1.height == was.sources[i].1.height
                &&& now.sources[i].1.vertical_origin == was.sources[i].1.vertical_origin
                &&& now.sources[i].1.contours == was.sources[i].1.contours
                &&& now.sources[i].1.components.len() == was.sources[i].1.components.len()
                &&& 0 <= k < was.sources[i].1.components.len() ==> now.sources[i].1.components[k]
                    == (ComponentView {
                    base: glyph::swapped_name(
                        was.sources[i].1.components[k].base,
                        old_name,
                        new_name,
                    ),
                    transform: was.sources[i].1.components[k].transform,
                    anchor: was.sources[i].1.components[k].anchor,
                })
            }
        }),
{
    let was = glyphs[a];
    let now = swapped_glyphs(glyphs, old_name, new_name)[a];
    assert(now == swapped_glyph(was, glyphs, old_name, new_name));
}

/// Swaps are done one after the other, on glyphs, on anchors and on kerning.
pub proof fn law_swaps_are_done_one_by_one(
    glyphs: Seq<GlyphView>,
    anchors: Seq<(Seq<char>, Seq<Anchor>)>,
    kerns: Seq<(PairView, Real)>,
    groups: Seq<(GroupView, Seq<Seq<char>>)>,
    swaps: Seq<(Seq<char>, Seq<char>)>,
    swap: (Seq<char>, Seq<char>),
    i: int,
)
    ensures
        glyphs_after(glyphs, Seq::empty()) == glyphs,
        anchors_after(anchors, Seq::empty()) == anchors,
        kerns_after(kerns, Seq::empty()) == kerns,
        groups_after(groups, Seq::empty()) == groups,
        glyphs_after(glyphs, swaps.push(swap)) == swapped_glyphs(
            glyphs_after(glyphs, swaps),
            swap.0,
            swap.1,
        ),
        anchors_after(anchors, swaps.push(swap)) == swapped_anchors(
            anchors_after(anchors, swaps),
            swap.0,
            swap.1,
        ),
        kerns_after(kerns, swaps.push(swap)).len() == kerns_after(kerns, swaps).len(),
        0 <= i < kerns_after(kerns, swaps).len() ==> kerns_after(kerns, swaps.push(swap))[i] == (
            glyph::swapped_pair(kerns_after(kerns, swaps)[i].0, swap.0, swap.1),
            kerns_after(kerns, swaps)[i].1,
        ),
        groups_after(groups, swaps.push(swap)).len() == groups_after(groups, swaps).len(),
        0 <= i < groups_after(groups, swaps).len() ==> groups_after(groups, swaps.push(swap))[i]
            == (
            groups_after(groups, swaps)[i].0,
            glyph::swapped_members(groups_after(groups, swaps)[i].1, swap.0, swap.1),
        ),
{
    assert(swaps.push(swap).drop_last() =~= swaps);
}

/// A swap is possible if there are glyphs of both names.
pub proof fn law_swaps_need_both_glyphs(
    glyphs: Seq<GlyphView>,
    swap: (Seq<char>, Seq<char>),
    a: int,
    b: int,
)
    ensures
        0 <= a < glyphs.len() && 0 <= b < glyphs.len() && glyphs[a].name == swap.0 && glyphs[b].name
            == swap.1 ==> is_possible(glyphs, swap),
        (forall|i: int| 0 <= i < glyphs.len() ==> (#[trigger] glyphs[i]).name != swap.0)
            ==> !is_possible(glyphs, swap),
        (forall|i: int| 0 <= i < glyphs.len() ==> (#[trigger] glyphs[i]).name != swap.1)
            ==> !is_possible(glyphs, swap),
{
    lemma_glyph_called(glyphs, swap.0);
    lemma_glyph_called(glyphs, swap.1);
}

/// A swap of a glyph that is not there is left out, in order.
pub proof fn law_swaps_of_known_glyphs_stay(
    glyphs: Seq<GlyphView>,
    swaps: Seq<(Seq<char>, Seq<char>)>,
    swap: (Seq<char>, Seq<char>),
    a: int,
)
    ensures
        known_swaps(glyphs, Seq::empty()).len() == 0,
        0 <= a < glyphs.len() && glyphs[a].name == swap.0 ==> known_swaps(glyphs, swaps.push(swap))
            == known_swaps(glyphs, swaps).push(swap),
        (forall|i: int| 0 <= i < glyphs.len() ==> (#[trigger] glyphs[i]).name != swap.0)
            ==> known_swaps(glyphs, swaps.push(swap)) == known_swaps(glyphs, swaps),
{
    assert(swaps.push(swap).drop_last() =~= swaps);
    lemma_glyph_called(glyphs, swap.0);
}

/// A pinned font has the features of the font it was, which have no
/// `conditionset`, and as many glyphs, each under the name, with the code
/// points and in the place that it had.
pub proof fn law_pinned_fonts_have_the_same_glyphs<
    N: Fn(&StaticMetadata, &Location) -> Result<Location, String>,
    G: Fn(&GlyphModel, &Glyph, &Location) -> Result<GlyphInstance, String>,
    A: Fn(&Vec<(Location, (Real, Real))>, &Vec<Tag>, &Location) -> Result<
        Vec<(Real, Real)>,
        String,
    >,
    F: Fn(&CoordConverter, Real) -> Real,
    I: Fn(&Vec<(Location, Real)>, &Vec<Tag>, &Location) -> Result<Option<Real>, String>,
    S: Fn(&Vec<Location>, &Location) -> Vec<(Location, Real)>,
    W: Fn(&Vec<(Real, Real)>) -> Real,
    H: Fn(Real) -> i32,
    B: Fn(&NameInputs) -> Vec<(NameKey, String)>,
    C: Fn(Real) -> u16,
    D: Fn(Real) -> u16,
>(
    with: FontArithmetic<N, G, A, F, PinArithmetic<I, S, W, H, B, C, D>>,
    ir: FrontendIr,
    spec: InstanceSpec,
    through: Pinning,
    out: FrontendIr,
    pin: Pin,
    i: int,
)
    requires
        font_pins_to(with, ir, spec, through, out, pin),
        0 <= i < ir.glyphs@.len(),
    ensures
        out.features == ir.features,
        ir.features matches Some(fea) ==> !fea_declares(fea@),
        pin.source_metadata == ir.static_metadata,
        out.glyphs@.len() == ir.glyphs@.len(),
        out.glyphs@[i].name@ == ir.glyphs@[i].name@,
        out.glyphs@[i].codepoints@ == ir.glyphs@[i].codepoints@,
        out.glyphs@[i].emit_to_binary == ir.glyphs@[i].emit_to_binary,
{
    let pinned = glyph::glyph_views(through.glyphs);
    let swaps = swaps_at(with.to_design, ir.static_metadata, through.user@, pinned);
    assert(instance::glyph_pins_to(
        with.interpolate_glyph,
        ir.static_metadata,
        ir.glyphs@[i],
        pin.location,
        through.glyphs[i],
    ));
    lemma_swaps_keep_names(pinned, swaps, i);
    let views = glyph::glyph_views(out.glyphs@);
    assert(views.len() == out.glyphs@.len());
    assert(pinned.len() == through.glyphs.len());
    assert(views[i] == out.glyphs@[i]@);
    assert(pinned[i] == through.glyphs[i]@);
}

proof fn lemma_swaps_keep_names(
    glyphs: Seq<GlyphView>,
    swaps: Seq<(Seq<char>, Seq<char>)>,
    i: int,
)
    ensures
        glyphs_after(glyphs, swaps).len() == glyphs.len(),
        0 <= i < glyphs.len() ==> glyphs_after(glyphs, swaps)[i].name == glyphs[i].name
            && glyphs_after(glyphs, swaps)[i].codepoints == glyphs[i].codepoints && glyphs_after(
            glyphs,
            swaps,
        )[i].emit_to_binary == glyphs[i].emit_to_binary,
    decreases swaps.len(),
{
    if swaps.len() > 0 {
        lemma_swaps_keep_names(glyphs, swaps.drop_last(), i);
    }
}

/// Swaps end at the first that needs a glyph which is not there. The error names
/// the glyph to be replaced, and the one to replace it.
pub proof fn law_the_first_impossible_swap_is_named(
    glyphs: Seq<GlyphView>,
    swaps: Seq<(Seq<char>, Seq<char>)>,
    i: int,
    e: InstanceError,
    k: int,
)
    requires
        swaps_stop_at(glyphs, swaps, i, e),
    ensures
        0 <= i < swaps.len(),
        e matches InstanceError::RuleSubstituteMissing { replace, with } && replace@ == swaps[i].0
            && with@ == swaps[i].1,
        !is_possible(glyphs, swaps[i]),
        0 <= k < i ==> is_possible(glyphs, swaps[k]),
{
}

/// Nothing is pinned of a font with a `conditionset`, and it can fail with
/// nothing else. Whatever comes after glyphs fails only where they do not.
pub proof fn law_pinning_fails_step_by_step<
    N: Fn(&StaticMetadata, &Location) -> Result<Location, String>,
    G: Fn(&GlyphModel, &Glyph, &Location) -> Result<GlyphInstance, String>,
    A: Fn(&Vec<(Location, (Real, Real))>, &Vec<Tag>, &Location) -> Result<
        Vec<(Real, Real)>,
        String,
    >,
    F: Fn(&CoordConverter, Real) -> Real,
    I: Fn(&Vec<(Location, Real)>, &Vec<Tag>, &Location) -> Result<Option<Real>, String>,
    S: Fn(&Vec<Location>, &Location) -> Vec<(Location, Real)>,
    W: Fn(&Vec<(Real, Real)>) -> Real,
    H: Fn(Real) -> i32,
    B: Fn(&NameInputs) -> Vec<(NameKey, String)>,
    C: Fn(Real) -> u16,
    D: Fn(Real) -> u16,
>(
    with: FontArithmetic<N, G, A, F, PinArithmetic<I, S, W, H, B, C, D>>,
    ir: FrontendIr,
    user: Location,
    at: Location,
    glyphs: Seq<Glyph>,
    anchors: Seq<GlyphAnchors>,
    e: InstanceError,
)
    requires
        pin_fails_at(with, ir, user, at, glyphs, anchors, e),
    ensures
        !(e is Pin),
        e is SourceWithFeaConditionSet <==> ir.features is Some && fea_declares(ir.features->0@),
        e is RuleSubstituteMissing || e is Delta ==> glyphs_pin_to(
            with.interpolate_glyph,
            ir.static_metadata,
            ir.glyphs@,
            at,
            glyphs,
        ) && all_anchors_pin_to(
            with.interpolate_anchor,
            ir.static_metadata,
            ir.anchors@,
            at,
            anchors,
        ),
        e matches InstanceError::Delta(cause) ==> instance::numbers_fail_with(
            with.metadata.interpolate,
            ir.static_metadata,
            at,
            cause,
        ),
        e is RuleSubstituteMissing ==> exists|i: int|
            swaps_stop_at(
                glyph::glyph_views(glyphs),
                swaps_at(
                    with.to_design,
                    ir.static_metadata,
                    user@,
                    glyph::glyph_views(glyphs),
                ),
                i,
                e,
            ),
{
}

/// A glyph that cannot be pinned is named, and so is one whose anchors cannot.
pub proof fn law_bad_glyphs_are_named<
    A: Fn(&Vec<(Location, (Real, Real))>, &Vec<Tag>, &Location) -> Result<
        Vec<(Real, Real)>,
        String,
    >,
    G: Fn(&GlyphModel, &Glyph, &Location) -> Result<GlyphInstance, String>,
>(
    interpolate: A,
    draw: G,
    static_metadata: StaticMetadata,
    anchors: GlyphAnchors,
    glyph: Glyph,
    pin: Location,
    bad: BadGlyph,
)
    ensures
        is_bad_for_anchors(interpolate, static_metadata, anchors, pin, bad) ==> bad.name@
            == anchors.glyph_name@ && instance::anchors_fail_with(
            interpolate,
            static_metadata,
            anchors.anchors@,
            pin,
            bad.cause,
        ),
        instance::glyph_fails_with(draw, static_metadata, glyph, pin, bad) ==> bad.name@
            == glyph.name@ && instance::interpolates_to(
            draw,
            static_metadata,
            glyph,
            pin,
            Err(bad.cause),
        ),
{
}

/// Why a font cannot be pinned: the pin is nowhere, or the pin is somewhere and
/// a step fails there.
pub proof fn law_fonts_fail_where_the_pin_is<
    N: Fn(&StaticMetadata, &Location) -> Result<Location, String>,
    G: Fn(&GlyphModel, &Glyph, &Location) -> Result<GlyphInstance, String>,
    A: Fn(&Vec<(Location, (Real, Real))>, &Vec<Tag>, &Location) -> Result<
        Vec<(Real, Real)>,
        String,
    >,
    F: Fn(&CoordConverter, Real) -> Real,
    I: Fn(&Vec<(Location, Real)>, &Vec<Tag>, &Location) -> Result<Option<Real>, String>,
    S: Fn(&Vec<Location>, &Location) -> Vec<(Location, Real)>,
    W: Fn(&Vec<(Real, Real)>) -> Real,
    H: Fn(Real) -> i32,
    B: Fn(&NameInputs) -> Vec<(NameKey, String)>,
    C: Fn(Real) -> u16,
    D: Fn(Real) -> u16,
>(
    with: FontArithmetic<N, G, A, F, PinArithmetic<I, S, W, H, B, C, D>>,
    ir: FrontendIr,
    spec: InstanceSpec,
    e: InstanceError,
) -> (r: (Location, Location, Seq<Glyph>, Seq<GlyphAnchors>))
    requires
        font_fails_with(with, ir, spec, e),
    ensures
        e matches InstanceError::Pin(why) ==> instance::is_nowhere(
            with.normalize,
            ir.static_metadata,
            spec,
            why,
        ),
        !(e is Pin) ==> instance::is_at(with.normalize, ir.static_metadata, spec, r.0, r.1)
            && pin_fails_at(with, ir, r.0, r.1, r.2, r.3, e),
{
    choose|user: Location, at: Location, glyphs: Seq<Glyph>, anchors: Seq<GlyphAnchors>|
        instance::is_at(with.normalize, ir.static_metadata, spec, user, at)
            && #[trigger] pin_fails_at(with, ir, user, at, glyphs, anchors, e)
}

/// The swaps of a font are those that its rules want at the pin in design space,
/// of glyphs that are there. A font without rules has none.
pub proof fn law_swaps_are_wanted_in_design_space<F: Fn(&CoordConverter, Real) -> Real>(
    to_design: F,
    static_metadata: StaticMetadata,
    user: Map<Tag, Real>,
    glyphs: Seq<GlyphView>,
)
    ensures
        static_metadata.variations is None ==> swaps_at(
            to_design,
            static_metadata,
            user,
            glyphs,
        ).len() == 0,
        static_metadata.variations matches Some(variations) ==> swaps_at(
            to_design,
            static_metadata,
            user,
            glyphs,
        ) == known_swaps(
            glyphs,
            instance::wanted_swaps(
                variations.rules@,
                design_of(to_design, static_metadata.all_source_axes@, user),
            ),
        ),
{
}

} // verus!
