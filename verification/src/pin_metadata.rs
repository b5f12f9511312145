//! Static metadata rewritten as that of one instance.

use crate::coords;
use crate::coords::{Axis, Location, Real, Tag};
use crate::glyph;
use crate::instance;
use crate::lookup;
use crate::numeric;
use crate::postscript;
use crate::static_metadata;
use crate::static_metadata::{
    GlyphPredicateAttrs, InstanceOverrides, MetaTableValues, MiscMetadata, NameId, NameKey, NamedInstance, PostscriptSettings, SelectionFlags,
    StaticMetadata, StyleMapStyle, VariationModel, BOLD, COMPATIBLE_FULL_NAME, ENGLISH,
    FAMILY_NAME, FULL_NAME, ITALIC, POSTSCRIPT_NAME, REGULAR, SUBFAMILY_NAME,
    TYPOGRAPHIC_FAMILY_NAME, TYPOGRAPHIC_SUBFAMILY_NAME, UNIQUE_ID, USE_TYPO_METRICS,
    VARIATIONS_POSTSCRIPT_NAME_PREFIX, WWS, WWS_FAMILY_NAME, WWS_SUBFAMILY_NAME,
};
use crate::text;
use vstd::prelude::*;

verus! {

/// The name ids that are derived from the instance, so never inherited.
pub open spec fn is_rebuilt(id: NameId) -> bool {
    id == FAMILY_NAME || id == SUBFAMILY_NAME || id == UNIQUE_ID || id == FULL_NAME || id
        == POSTSCRIPT_NAME || id == TYPOGRAPHIC_FAMILY_NAME || id == TYPOGRAPHIC_SUBFAMILY_NAME
}

/// The name ids that an instance simply loses.
pub open spec fn is_dropped(id: NameId) -> bool {
    id == COMPATIBLE_FULL_NAME || id == WWS_FAMILY_NAME || id == WWS_SUBFAMILY_NAME || id
        == VARIATIONS_POSTSCRIPT_NAME_PREFIX
}

/// Keys are ordered by id, then by platform, encoding and language.
pub open spec fn key_le(a: NameKey, b: NameKey) -> bool {
    if a.name_id != b.name_id {
        a.name_id < b.name_id
    } else if a.platform_id != b.platform_id {
        a.platform_id < b.platform_id
    } else if a.encoding_id != b.encoding_id {
        a.encoding_id < b.encoding_id
    } else {
        a.lang_id <= b.lang_id
    }
}

pub open spec fn keys_ascend(names: Seq<(NameKey, Seq<char>)>) -> bool {
    forall|i: int, j: int| 0 <= i < j < names.len() ==> #[trigger] key_le(names[i].0, names[j].0)
}

/// Whether an instance inherits a record.
pub open spec fn is_kept(key: NameKey) -> bool {
    key.lang_id == ENGLISH && !is_rebuilt(key.name_id) && !is_dropped(key.name_id)
}

/// The records that an instance inherits.
pub open spec fn kept_names(names: Seq<(NameKey, Seq<char>)>) -> Seq<(NameKey, Seq<char>)>
    decreases names.len(),
{
    if names.len() == 0 {
        seq![]
    } else {
        let rest = kept_names(names.drop_last());
        if is_kept(names.last().0) {
            rest.push(names.last())
        } else {
            rest
        }
    }
}

/// What a name table is built from.
#[derive(Debug, PartialEq, Eq)]
pub struct NameInputs {
    pub version_major: i32,
    pub version_minor: u32,
    /// Names by id. Of two with one id, the later counts.
    pub names: Vec<(NameId, String)>,
    pub vendor_id: String,
}

/// Ids and names.
pub open spec fn id_names(names: Seq<(NameId, String)>) -> Seq<(NameId, Seq<char>)> {
    names.map_values(|n: (NameId, String)| (n.0, n.1@))
}

/// Records by id alone.
pub open spec fn by_id(names: Seq<(NameKey, Seq<char>)>) -> Seq<(NameId, Seq<char>)> {
    names.map_values(|n: (NameKey, Seq<char>)| (n.0.name_id, n.1))
}

/// A name if there is one.
pub open spec fn if_stated(id: NameId, name: Option<Seq<char>>) -> Seq<(NameId, Seq<char>)> {
    match name {
        Some(name) => seq![(id, name)],
        None => seq![],
    }
}

pub open spec fn text_of(s: Option<String>) -> Option<Seq<char>> {
    match s {
        Some(s) => Some(s@),
        None => None,
    }
}

/// The names that an instance states itself, in the order they count.
pub open spec fn instance_names(ni: NamedInstance) -> Seq<(NameId, Seq<char>)> {
    if_stated(TYPOGRAPHIC_FAMILY_NAME, text_of(ni.family_name)) + seq![
        (TYPOGRAPHIC_SUBFAMILY_NAME, ni.name@),
    ] + if_stated(FAMILY_NAME, text_of(ni.style_map_family_name)) + if_stated(
        SUBFAMILY_NAME,
        match ni.style_map_style_name {
            Some(raw) => Some(text::titled(raw@)),
            None => None,
        },
    ) + if_stated(POSTSCRIPT_NAME, text_of(ni.postscript_name)) + id_names(ni.overrides.names@)
}

/// What the name table of an instance is built from: what it inherits, sorted
/// by key, and then what it states itself.
pub open spec fn are_inputs_for(
    static_metadata: StaticMetadata,
    ni: NamedInstance,
    inputs: NameInputs,
) -> bool {
    &&& inputs.version_major == static_metadata.misc.version_major
    &&& inputs.version_minor == static_metadata.misc.version_minor
    &&& inputs.vendor_id@ == (match static_metadata.misc.raw_vendor_id {
        Some(raw) => raw@,
        None => coords::tag_text(static_metadata.misc.vendor_id),
    })
    &&& exists|kept: Seq<(NameKey, Seq<char>)>|
        #![trigger keys_ascend(kept)]
        keys_ascend(kept) && kept.to_multiset() == kept_names(
            static_metadata::records(static_metadata.names@),
        ).to_multiset() && id_names(inputs.names@) == by_id(kept) + instance_names(ni)
}

/// A name table with these records set, one after the other.
pub open spec fn put_all(
    names: Seq<(NameKey, Seq<char>)>,
    more: Seq<(NameKey, Seq<char>)>,
) -> Seq<(NameKey, Seq<char>)>
    decreases more.len(),
{
    if more.len() == 0 {
        names
    } else {
        static_metadata::put(put_all(names, more.drop_last()), more.last().0, more.last().1)
    }
}

/// The records in another language than US English.
pub open spec fn foreign_names(names: Seq<(NameKey, Seq<char>)>) -> Seq<(NameKey, Seq<char>)>
    decreases names.len(),
{
    if names.len() == 0 {
        seq![]
    } else {
        let rest = foreign_names(names.drop_last());
        if names.last().0.lang_id != ENGLISH {
            rest.push(names.last())
        } else {
            rest
        }
    }
}

/// The name table of an instance: what was built, then every record in another
/// language, then the records that the instance states outright.
pub open spec fn finished_names(
    built: Seq<(NameKey, Seq<char>)>,
    static_metadata: StaticMetadata,
    ni: NamedInstance,
) -> Seq<(NameKey, Seq<char>)> {
    put_all(
        put_all(built, foreign_names(static_metadata::records(static_metadata.names@))),
        static_metadata::records(ni.overrides.name_records@),
    )
}

/// `names` is what the name table of an instance may come to.
pub open spec fn names_pin_to<B: Fn(&NameInputs) -> Vec<(NameKey, String)>>(
    build: B,
    static_metadata: StaticMetadata,
    ni: NamedInstance,
    names: Seq<(NameKey, Seq<char>)>,
) -> bool {
    exists|inputs: NameInputs, built: Vec<(NameKey, String)>| #[trigger]
        call_ensures(build, (&inputs,), built) && are_inputs_for(static_metadata, ni, inputs)
            && names == finished_names(static_metadata::records(built@), static_metadata, ni)
}

fn key_not_after(a: &NameKey, b: &NameKey) -> (r: bool)
    ensures
        r == key_le(*a, *b),
{
    if a.name_id != b.name_id {
        a.name_id < b.name_id
    } else if a.platform_id != b.platform_id {
        a.platform_id < b.platform_id
    } else if a.encoding_id != b.encoding_id {
        a.encoding_id < b.encoding_id
    } else {
        a.lang_id <= b.lang_id
    }
}

fn keeps(key: &NameKey) -> (r: bool)
    ensures
        r == is_kept(*key),
{
    let id: NameId = key.name_id;
    let rebuilt: bool = id == FAMILY_NAME || id == SUBFAMILY_NAME || id == UNIQUE_ID || id
        == FULL_NAME || id == POSTSCRIPT_NAME || id == TYPOGRAPHIC_FAMILY_NAME || id
        == TYPOGRAPHIC_SUBFAMILY_NAME;
    let dropped: bool = id == COMPATIBLE_FULL_NAME || id == WWS_FAMILY_NAME || id
        == WWS_SUBFAMILY_NAME || id == VARIATIONS_POSTSCRIPT_NAME_PREFIX;
    key.lang_id == ENGLISH && !rebuilt && !dropped
}

/// The records an instance inherits, in ascending order of key.
fn sorted_kept(names: &Vec<(NameKey, String)>) -> (r: Vec<(NameKey, String)>)
    ensures
        keys_ascend(static_metadata::records(r@)),
        static_metadata::records(r@).to_multiset() == kept_names(
            static_metadata::records(names@),
        ).to_multiset(),
{
    let ghost all = static_metadata::records(names@);
    let mut sorted: Vec<(NameKey, String)> = Vec::new();
    let mut i: usize = 0;
    assert(static_metadata::records(sorted@) =~= kept_names(all.take(0)));
    while i < names.len()
        invariant
            i <= names@.len(),
            all == static_metadata::records(names@),
            keys_ascend(static_metadata::records(sorted@)),
            static_metadata::records(sorted@).to_multiset() == kept_names(
                all.take(i as int),
            ).to_multiset(),
        decreases names.len() - i,
    {
        assert(all.take(i + 1).drop_last() =~= all.take(i as int));
        assert(all.take(i + 1).last() == (names@[i as int].0, names@[i as int].1@));
        if keeps(&names[i].0) {
            let key: NameKey = names[i].0;
            let ghost entry = (key, names@[i as int].1@);
            let ghost before = static_metadata::records(sorted@);
            let mut at: usize = 0;
            while at < sorted.len() && key_not_after(&sorted[at].0, &key)
                invariant
                    at <= sorted@.len(),
                    before == static_metadata::records(sorted@),
                    forall|j: int| 0 <= j < at ==> key_le((#[trigger] before[j]).0, key),
                decreases sorted.len() - at,
            {
                assert(before[at as int].0 == sorted@[at as int].0);
                at = at + 1;
            }
            let ghost was = sorted@;
            sorted.insert(at, (key, names[i].1.clone()));
            proof {
                let after = static_metadata::records(sorted@);
                assert(after =~= before.insert(at as int, entry));
                vstd::seq_lib::to_multiset_insert(before, at as int, entry);
                vstd::seq_lib::to_multiset_build(kept_names(all.take(i as int)), entry);
                if at < before.len() {
                    assert(before[at as int].0 == was[at as int].0);
                    assert(key_le(key, before[at as int].0));
                }
                assert forall|x: int, y: int| 0 <= x < y < after.len() implies #[trigger] key_le(
                    after[x].0,
                    after[y].0,
                ) by {
                    let a = if x < at {
                        before[x]
                    } else if x == at {
                        entry
                    } else {
                        before[x - 1]
                    };
                    let b = if y < at {
                        before[y]
                    } else if y == at {
                        entry
                    } else {
                        before[y - 1]
                    };
                    assert(after[x] == a && after[y] == b);
                    if at < before.len() && y > at + 1 {
                        assert(key_le(before[at as int].0, before[y - 1].0));
                    }
                }
            }
        }
        i = i + 1;
    }
    assert(all.take(i as int) =~= all);
    sorted
}

fn add_name(names: &mut Vec<(NameId, String)>, id: NameId, name: &Option<String>)
    ensures
        id_names(final(names)@) == id_names(old(names)@) + if_stated(id, text_of(*name)),
{
    let ghost before = id_names(names@);
    if let Some(name) = name {
        names.push((id, name.clone()));
        assert(id_names(names@) =~= before + seq![(id, name@)]);
    } else {
        assert(id_names(names@) =~= before + Seq::empty());
    }
}

/// What the name table of an instance is built from.
pub fn name_inputs(static_metadata: &StaticMetadata, ni: &NamedInstance) -> (r: NameInputs)
    ensures
        are_inputs_for(*static_metadata, *ni, r),
{
    let kept: Vec<(NameKey, String)> = sorted_kept(&static_metadata.names);
    let ghost first = by_id(static_metadata::records(kept@));
    let mut names: Vec<(NameId, String)> = Vec::new();
    let mut i: usize = 0;
    while i < kept.len()
        invariant
            i <= kept@.len(),
            first == by_id(static_metadata::records(kept@)),
            id_names(names@) =~= first.take(i as int),
        decreases kept.len() - i,
    {
        let ghost before = names@;
        names.push((kept[i].0.name_id, kept[i].1.clone()));
        assert(id_names(names@) =~= id_names(before).push(
            (kept@[i as int].0.name_id, kept@[i as int].1@),
        ));
        i = i + 1;
    }
    assert(id_names(names@) =~= first);
    add_name(&mut names, TYPOGRAPHIC_FAMILY_NAME, &ni.family_name);
    let ghost so_far = id_names(names@);
    names.push((TYPOGRAPHIC_SUBFAMILY_NAME, ni.name.clone()));
    assert(id_names(names@) =~= so_far + seq![(TYPOGRAPHIC_SUBFAMILY_NAME, ni.name@)]);
    add_name(&mut names, FAMILY_NAME, &ni.style_map_family_name);
    let display: Option<String> = ni.style_map_style_display();
    add_name(&mut names, SUBFAMILY_NAME, &display);
    add_name(&mut names, POSTSCRIPT_NAME, &ni.postscript_name);
    let ghost middle = id_names(names@);
    let stated: &Vec<(NameId, String)> = &ni.overrides.names;
    let mut k: usize = 0;
    assert(middle + id_names(stated@).take(0) =~= middle);
    while k < stated.len()
        invariant
            k <= stated@.len(),
            id_names(names@) == middle + id_names(stated@).take(k as int),
        decreases stated.len() - k,
    {
        let ghost before = id_names(names@);
        names.push((stated[k].0, stated[k].1.clone()));
        assert(id_names(names@) =~= before.push((stated@[k as int].0, stated@[k as int].1@)));
        assert(id_names(names@) =~= middle + id_names(stated@).take(k + 1));
        k = k + 1;
    }
    assert(id_names(stated@).take(k as int) =~= id_names(stated@));
    assert(id_names(names@) =~= first + instance_names(*ni));
    let vendor_id: String = match &static_metadata.misc.raw_vendor_id {
        Some(raw) => raw.clone(),
        None => static_metadata.misc.vendor_id.text(),
    };
    assert(keys_ascend(static_metadata::records(kept@)));
    NameInputs {
        version_major: static_metadata.misc.version_major,
        version_minor: static_metadata.misc.version_minor,
        names,
        vendor_id,
    }
}

/// The name table of an instance, from what was built of its inputs.
pub fn finish_names(
    built: Vec<(NameKey, String)>,
    static_metadata: &StaticMetadata,
    ni: &NamedInstance,
) -> (r: Vec<(NameKey, String)>)
    ensures
        static_metadata::records(r@) == finished_names(
            static_metadata::records(built@),
            *static_metadata,
            *ni,
        ),
{
    let ghost start = static_metadata::records(built@);
    let ghost all = static_metadata::records(static_metadata.names@);
    let mut names: Vec<(NameKey, String)> = built;
    let mut i: usize = 0;
    assert(put_all(start, foreign_names(all.take(0))) =~= start);
    while i < static_metadata.names.len()
        invariant
            i <= static_metadata.names@.len(),
            all == static_metadata::records(static_metadata.names@),
            static_metadata::records(names@) == put_all(start, foreign_names(all.take(i as int))),
        decreases static_metadata.names.len() - i,
    {
        assert(all.take(i + 1).drop_last() =~= all.take(i as int));
        if static_metadata.names[i].0.lang_id != ENGLISH {
            proof {
                let foreign = foreign_names(all.take(i + 1));
                assert(foreign.drop_last() =~= foreign_names(all.take(i as int)));
                assert(foreign.last() == all[i as int]);
            }
            static_metadata::put_name(
                &mut names,
                static_metadata.names[i].0,
                &static_metadata.names[i].1,
            );
        }
        i = i + 1;
    }
    assert(all.take(i as int) =~= all);
    let stated: &Vec<(NameKey, String)> = &ni.overrides.name_records;
    let ghost more = static_metadata::records(stated@);
    let ghost middle = static_metadata::records(names@);
    let mut k: usize = 0;
    assert(put_all(middle, more.take(0)) =~= middle);
    while k < stated.len()
        invariant
            k <= stated@.len(),
            more == static_metadata::records(stated@),
            static_metadata::records(names@) == put_all(middle, more.take(k as int)),
        decreases stated.len() - k,
    {
        assert(more.take(k + 1).drop_last() =~= more.take(k as int));
        assert(more.take(k + 1).last() == (stated@[k as int].0, stated@[k as int].1@));
        static_metadata::put_name(&mut names, stated[k].0, &stated[k].1);
        k = k + 1;
    }
    assert(more.take(k as int) =~= more);
    names
}

/// The name table of the instance.
///
/// Every name that is derived is rebuilt, because an instance does not inherit
/// any of them; `build` derives a table from the names it is given. Records in
/// other languages are left as they are.
pub fn pin_names<B: Fn(&NameInputs) -> Vec<(NameKey, String)>>(
    static_metadata: &StaticMetadata,
    ni: &NamedInstance,
    build: &B,
) -> (r: Vec<(NameKey, String)>)
    requires
        forall|inputs: NameInputs| call_requires(*build, (&inputs,)),
    ensures
        names_pin_to(*build, *static_metadata, *ni, static_metadata::records(r@)),
{
    let inputs: NameInputs = name_inputs(static_metadata, ni);
    let built: Vec<(NameKey, String)> = build(&inputs);
    finish_names(built, static_metadata, ni)
}

/// The style an instance is linked by, if any: what it states, or else its own
/// name or regular.
pub open spec fn linked_style(ni: NamedInstance) -> Option<StyleMapStyle> {
    match ni.style_map_style_name {
        Some(stated) => static_metadata::style_stated(stated@),
        None => match static_metadata::style_stated(ni.name@) {
            Some(style) => Some(style),
            None => Some(StyleMapStyle::Regular),
        },
    }
}

/// Selection flags with this style in place of theirs.
pub open spec fn with_style(
    flags: SelectionFlags,
    style: Option<StyleMapStyle>,
) -> SelectionFlags {
    let bare = flags & !(REGULAR | BOLD | ITALIC);
    match style {
        Some(style) => bare | static_metadata::style_flags(style),
        None => bare,
    }
}

/// The selection flags of the instance: those of the font, but with the style
/// that the instance is linked by.
///
/// A style that the source states and that isn't one of the four earns no flag
/// at all; the fallback to regular is for a source that states none.
pub fn pin_selection_flags(static_metadata: &StaticMetadata, ni: &NamedInstance) -> (r:
    SelectionFlags)
    ensures
        r == with_style(static_metadata.misc.selection_flags, linked_style(*ni)),
{
    let style: Option<StyleMapStyle> = match &ni.style_map_style_name {
        Some(stated) => StyleMapStyle::parse(stated.as_str()),
        None => match StyleMapStyle::parse(ni.name.as_str()) {
            Some(style) => Some(style),
            None => Some(StyleMapStyle::Regular),
        },
    };
    let bare: SelectionFlags = static_metadata.misc.selection_flags & !(REGULAR | BOLD | ITALIC);
    match style {
        Some(style) => bare | style.selection_flags(),
        None => bare,
    }
}

/// `wght`.
pub const WEIGHT: u32 = 0x77676874;

/// `wdth`.
pub const WIDTH: u32 = 0x77647468;

/// Where a pin is on an axis, if the font has it.
pub open spec fn user_at(axes: Seq<Axis>, user_pin: Map<Tag, Real>, tag: Tag) -> Option<Real> {
    match coords::axis_with(axes, tag) {
        Some(i) => Some(
            if user_pin.dom().contains(tag) {
                user_pin[tag]
            } else {
                axes[i].default
            },
        ),
        None => None,
    }
}

/// The class at a position, or what was there if there is no position.
pub open spec fn class_at<C: Fn(Real) -> u16>(
    classify: C,
    at: Option<Real>,
    otherwise: Option<u16>,
) -> Option<u16> {
    match at {
        Some(at) => Some(numeric::image(classify, at)),
        None => otherwise,
    }
}

fn find_user_at(axes: &Vec<Axis>, user_pin: &Location, tag: Tag) -> (r: Option<Real>)
    ensures
        r == user_at(axes@, user_pin@, tag),
{
    match coords::find_axis(axes, tag) {
        Some(i) => match user_pin.get(tag) {
            Some(at) => Some(at),
            None => Some(axes[i].default),
        },
        None => None,
    }
}

/// The weight and width class from where the pin is in user space.
///
/// Both are set whenever the font has the axis, whatever was stated before;
/// without the axis, what was stated stands. `weight_class` truncates toward
/// zero, `width_class` takes the nearest standard width.
pub fn pin_os2_classes<C: Fn(Real) -> u16, D: Fn(Real) -> u16>(
    pinned: &mut StaticMetadata,
    axes: &Vec<Axis>,
    user_pin: &Location,
    weight_class: &C,
    width_class: &D,
)
    requires
        numeric::is_map(*weight_class),
        numeric::is_map(*width_class),
    ensures
        *final(pinned) == (StaticMetadata {
            misc: (MiscMetadata {
                us_weight_class: class_at(
                    *weight_class,
                    user_at(axes@, user_pin@, Tag(WEIGHT)),
                    old(pinned).misc.us_weight_class,
                ),
                us_width_class: class_at(
                    *width_class,
                    user_at(axes@, user_pin@, Tag(WIDTH)),
                    old(pinned).misc.us_width_class,
                ),
                ..old(pinned).misc
            }),
            ..*old(pinned)
        }),
{
    if let Some(weight) = find_user_at(axes, user_pin, Tag(WEIGHT)) {
        pinned.misc.us_weight_class = Some(numeric::apply(weight_class, weight));
    }
    if let Some(width) = find_user_at(axes, user_pin, Tag(WIDTH)) {
        pinned.misc.us_width_class = Some(numeric::apply(width_class, width));
    }
}

/// Editable embedding, the `fsType` of an instance that states none.
pub const EDITABLE_EMBEDDING: u16 = 8;

pub open spec fn embedding(stated: Option<u16>) -> u16 {
    match stated {
        Some(stated) => stated,
        None => EDITABLE_EMBEDDING,
    }
}

/// The info an instance loses, and what fills the gaps: the PANOSE merged
/// across the masters, and editable embedding.
pub fn pin_instance_fontinfo(pinned: &mut StaticMetadata)
    ensures
        *final(pinned) == (StaticMetadata {
            misc: (MiscMetadata {
                panose: old(pinned).misc.instance_panose,
                fs_type: Some(embedding(old(pinned).misc.fs_type)),
                ..old(pinned).misc
            }),
            ..*old(pinned)
        }),
{
    pinned.misc.panose = pinned.misc.instance_panose;
    if pinned.misc.fs_type.is_none() {
        pinned.misc.fs_type = Some(EDITABLE_EMBEDDING);
    }
}

/// Numbers in place of others, where any are given.
pub open spec fn bits_follow(
    after: Option<Vec<u32>>,
    stated: Option<Vec<u32>>,
    before: Option<Vec<u32>>,
) -> bool {
    match stated {
        Some(bits) => after is Some && after->0@ == bits@,
        None => after == before,
    }
}

/// Records in place of others, where any are given.
pub open spec fn meta_follows(
    after: Option<MetaTableValues>,
    stated: Option<MetaTableValues>,
    before: Option<MetaTableValues>,
) -> bool {
    match stated {
        Some(meta) => after is Some && after->0.same_as(&meta),
        None => after == before,
    }
}

/// Flags with one of them set or cleared, if that is stated.
pub open spec fn with_flag(
    flags: SelectionFlags,
    flag: SelectionFlags,
    stated: Option<bool>,
) -> SelectionFlags {
    match stated {
        Some(true) => flags | flag,
        Some(false) => flags & !flag,
        None => flags,
    }
}

/// A value in place of another, if one is given.
pub open spec fn stated_or<T>(stated: Option<T>, before: Option<T>) -> Option<T> {
    match stated {
        Some(value) => Some(value),
        None => before,
    }
}

/// `after` says what `before` does but for what an instance states itself.
pub open spec fn overridden(
    before: StaticMetadata,
    overrides: InstanceOverrides,
    after: StaticMetadata,
) -> bool {
    &&& after == (StaticMetadata {
        postscript: after.postscript,
        postscript_names: if overrides.use_production_names == Some(false) {
            None
        } else {
            before.postscript_names
        },
        misc: (MiscMetadata {
            panose: stated_or(overrides.panose, before.misc.panose),
            fs_type: stated_or(overrides.fs_type, before.misc.fs_type),
            is_fixed_pitch: stated_or(overrides.is_fixed_pitch, before.misc.is_fixed_pitch),
            unicode_range_bits: after.misc.unicode_range_bits,
            codepage_range_bits: after.misc.codepage_range_bits,
            meta_table: after.misc.meta_table,
            selection_flags: with_flag(
                with_flag(
                    before.misc.selection_flags,
                    USE_TYPO_METRICS,
                    overrides.use_typo_metrics,
                ),
                WWS,
                overrides.has_wws_names,
            ),
            ..before.misc
        }),
        ..before
    })
    &&& bits_follow(
        after.misc.unicode_range_bits,
        overrides.unicode_range_bits,
        before.misc.unicode_range_bits,
    )
    &&& bits_follow(
        after.misc.codepage_range_bits,
        overrides.codepage_range_bits,
        before.misc.codepage_range_bits,
    )
    &&& meta_follows(after.misc.meta_table, overrides.meta_table, before.misc.meta_table)
    &&& after.postscript@ == with_full_name(before.postscript@, overrides.postscript_full_name)
}

/// PostScript settings with this full name, if one is given.
pub open spec fn with_full_name(
    postscript: Seq<(Location, PostscriptSettings)>,
    full_name: Option<String>,
) -> Seq<(Location, PostscriptSettings)> {
    match full_name {
        Some(_) => postscript.map_values(
            |p: (Location, PostscriptSettings)|
                (p.0, (PostscriptSettings { full_name, ..p.1 })),
        ),
        None => postscript,
    }
}

fn state_flag(flags: SelectionFlags, flag: SelectionFlags, stated: Option<bool>) -> (r:
    SelectionFlags)
    ensures
        r == with_flag(flags, flag, stated),
{
    match stated {
        Some(true) => flags | flag,
        Some(false) => flags & !flag,
        None => flags,
    }
}

fn state_full_name(
    postscript: &mut Vec<(Location, PostscriptSettings)>,
    full_name: &Option<String>,
)
    ensures
        final(postscript)@ == with_full_name(old(postscript)@, *full_name),
{
    if full_name.is_none() {
        return ;
    }
    let ghost before = postscript@;
    let ghost all = with_full_name(before, *full_name);
    let mut i: usize = 0;
    while i < postscript.len()
        invariant
            i <= postscript@.len(),
            postscript@.len() == before.len(),
            full_name is Some,
            all == with_full_name(before, *full_name),
            forall|j: int| 0 <= j < i ==> #[trigger] postscript@[j] == all[j],
            forall|j: int| i <= j < before.len() ==> #[trigger] postscript@[j] == before[j],
        decreases postscript.len() - i,
    {
        postscript[i].1.full_name = static_metadata::copy_name(full_name);
        i = i + 1;
    }
    assert(postscript@ =~= all);
}

/// Replay what the instance states itself over the pinned metadata: it beats
/// everything the masters say.
///
/// An instance that asks for production names where the font turned them off
/// asks in vain, since nothing is left to build them from.
pub fn pin_instance_overrides(pinned: &mut StaticMetadata, ni: &NamedInstance)
    ensures
        overridden(*old(pinned), ni.overrides, *final(pinned)),
{
    let overrides: &InstanceOverrides = &ni.overrides;
    if overrides.panose.is_some() {
        pinned.misc.panose = overrides.panose;
    }
    if overrides.fs_type.is_some() {
        pinned.misc.fs_type = overrides.fs_type;
    }
    if overrides.is_fixed_pitch.is_some() {
        pinned.misc.is_fixed_pitch = overrides.is_fixed_pitch;
    }
    if let Some(bits) = &overrides.unicode_range_bits {
        pinned.misc.unicode_range_bits = Some(lookup::copied(bits));
    }
    if let Some(bits) = &overrides.codepage_range_bits {
        pinned.misc.codepage_range_bits = Some(lookup::copied(bits));
    }
    if let Some(meta) = &overrides.meta_table {
        pinned.misc.meta_table = Some(meta.clone());
    }
    state_full_name(&mut pinned.postscript, &overrides.postscript_full_name);
    let flags: SelectionFlags = state_flag(
        pinned.misc.selection_flags,
        USE_TYPO_METRICS,
        overrides.use_typo_metrics,
    );
    pinned.misc.selection_flags = state_flag(flags, WWS, overrides.has_wws_names);
    if let Some(false) = overrides.use_production_names {
        pinned.postscript_names = None;
    }
}

/// Whether two optional lists hold the same.
pub open spec fn same_entries<V>(a: Option<Vec<(String, V)>>, b: Option<Vec<(String, V)>>) -> bool {
    match (a, b) {
        (Some(a), Some(b)) => a@ == b@,
        (None, None) => true,
        _ => false,
    }
}

fn copy_attrs(list: &Option<Vec<(String, GlyphPredicateAttrs)>>) -> (r: Option<
    Vec<(String, GlyphPredicateAttrs)>,
>)
    ensures
        same_entries(r, *list),
{
    match list {
        Some(list) => {
            let mut r: Vec<(String, GlyphPredicateAttrs)> = Vec::new();
            let mut i: usize = 0;
            while i < list.len()
                invariant
                    i <= list@.len(),
                    r@ =~= list@.take(i as int),
                decreases list.len() - i,
            {
                r.push((list[i].0.clone(), list[i].1.clone()));
                i = i + 1;
            }
            assert(r@ =~= list@);
            Some(r)
        },
        None => None,
    }
}

fn copy_production_names(list: &Option<Vec<(String, String)>>) -> (r: Option<
    Vec<(String, String)>,
>)
    ensures
        same_entries(r, *list),
{
    match list {
        Some(list) => {
            let mut r: Vec<(String, String)> = Vec::new();
            let mut i: usize = 0;
            while i < list.len()
                invariant
                    i <= list@.len(),
                    r@ =~= list@.take(i as int),
                decreases list.len() - i,
            {
                r.push((list[i].0.clone(), list[i].1.clone()));
                i = i + 1;
            }
            assert(r@ =~= list@);
            Some(r)
        },
        None => None,
    }
}

/// `pinned` is the static metadata of the instance at a pin, before what the
/// instance states itself.
pub open spec fn metadata_pins_to<
    I: Fn(&Vec<(Location, Real)>, &Vec<Tag>, &Location) -> Result<Option<Real>, String>,
    S: Fn(&Vec<Location>, &Location) -> Vec<(Location, Real)>,
    W: Fn(&Vec<(Real, Real)>) -> Real,
    H: Fn(Real) -> i32,
    B: Fn(&NameInputs) -> Vec<(NameKey, String)>,
    C: Fn(Real) -> u16,
    D: Fn(Real) -> u16,
>(
    with: PinArithmetic<I, S, W, H, B, C, D>,
    whole: StaticMetadata,
    pin: Location,
    user_pin: Map<Tag, Real>,
    ni: Option<NamedInstance>,
    pinned: StaticMetadata,
) -> bool {
    &&& pinned.units_per_em == whole.units_per_em
    &&& coords::same_axes(pinned.all_source_axes@, whole.all_source_axes@)
    &&& same_entries(pinned.glyph_predicate_attrs, whole.glyph_predicate_attrs)
    &&& pinned.default_location@ == whole.default_location@
    &&& same_entries(pinned.postscript_names, whole.postscript_names)
    &&& pinned.italic_angle == whole.italic_angle
    &&& pinned.build_vertical == whole.build_vertical
    &&& pinned.variations is None
    &&& pinned.misc.same_as(
        &(MiscMetadata {
            selection_flags: match ni {
                Some(ni) => with_style(whole.misc.selection_flags, linked_style(ni)),
                None => whole.misc.selection_flags,
            },
            us_weight_class: class_at(
                with.weight_class,
                user_at(whole.axes@, user_pin, Tag(WEIGHT)),
                whole.misc.us_weight_class,
            ),
            us_width_class: class_at(
                with.width_class,
                user_at(whole.axes@, user_pin, Tag(WIDTH)),
                whole.misc.us_width_class,
            ),
            panose: whole.misc.instance_panose,
            fs_type: Some(embedding(whole.misc.fs_type)),
            ..whole.misc
        }),
    )
    &&& pinned.axes@.len() == 0
    &&& pinned.named_instances@.len() == 0
    &&& coords::places(pinned.variation_model.locations@) == seq![whole.home()]
    &&& pinned.variation_model.axis_order@.len() == 0
    &&& instance::numbers_pin_to(with.interpolate, whole, pin, pinned.number_values@)
    &&& pinned.postscript@.len() == 1
    &&& pinned.postscript@[0].0@ == whole.home()
    &&& postscript::pins_to(
        with.scalars,
        with.weigh,
        with.hundreds,
        whole,
        pin@,
        pinned.postscript@[0].1,
    )
    &&& match ni {
        Some(ni) => names_pin_to(
            with.build_names,
            whole,
            ni,
            static_metadata::records(pinned.names@),
        ),
        None => pinned.names@ == whole.names@,
    }
}

/// `pinned` is the static metadata of the instance at a pin.
pub open spec fn static_metadata_pins_to<
    I: Fn(&Vec<(Location, Real)>, &Vec<Tag>, &Location) -> Result<Option<Real>, String>,
    S: Fn(&Vec<Location>, &Location) -> Vec<(Location, Real)>,
    W: Fn(&Vec<(Real, Real)>) -> Real,
    H: Fn(Real) -> i32,
    B: Fn(&NameInputs) -> Vec<(NameKey, String)>,
    C: Fn(Real) -> u16,
    D: Fn(Real) -> u16,
>(
    with: PinArithmetic<I, S, W, H, B, C, D>,
    whole: StaticMetadata,
    pin: Location,
    user_pin: Map<Tag, Real>,
    ni: Option<NamedInstance>,
    pinned: StaticMetadata,
) -> bool {
    match ni {
        Some(n) => exists|base: StaticMetadata|
            metadata_pins_to(with, whole, pin, user_pin, ni, base) && #[trigger] overridden(
                base,
                n.overrides,
                pinned,
            ),
        None => metadata_pins_to(with, whole, pin, user_pin, ni, pinned),
    }
}

/// The work that pinning needs done with numbers and names themselves.
#[derive(Debug)]
pub struct PinArithmetic<I, S, W, H, B, C, D> {
    /// The value at a location of a number that masters give, if any do.
    pub interpolate: I,
    /// The weight of each master at a location.
    pub scalars: S,
    /// The sum of values times their weights.
    pub weigh: W,
    /// A weight class in hundreds.
    pub hundreds: H,
    /// The name table built from stated names.
    pub build_names: B,
    /// The weight class at a position.
    pub weight_class: C,
    /// The width class at a position.
    pub width_class: D,
}

/// `static_metadata` rewritten as the static metadata of the instance at `pin`.
///
/// Axes are emptied, and the variation model collapses to a single location.
/// `user_pin` is the same position in user space, and `ni` the named instance
/// the pin lands on, if it lands on one. Feature variation rules are dropped:
/// whoever calls this has applied them.
pub fn pin_static_metadata<
    I: Fn(&Vec<(Location, Real)>, &Vec<Tag>, &Location) -> Result<Option<Real>, String>,
    S: Fn(&Vec<Location>, &Location) -> Vec<(Location, Real)>,
    W: Fn(&Vec<(Real, Real)>) -> Real,
    H: Fn(Real) -> i32,
    B: Fn(&NameInputs) -> Vec<(NameKey, String)>,
    C: Fn(Real) -> u16,
    D: Fn(Real) -> u16,
>(
    static_metadata: &StaticMetadata,
    pin: &Location,
    user_pin: &Location,
    ni: Option<&NamedInstance>,
    with: &PinArithmetic<I, S, W, H, B, C, D>,
) -> (r: Result<StaticMetadata, String>)
    requires
        forall|masters: Vec<(Location, Real)>, axes: Vec<Tag>|
            call_requires(with.interpolate, (&masters, &axes, pin)),
        numeric::is_model(with.scalars),
        numeric::is_sum(with.weigh),
        numeric::is_map(with.hundreds),
        forall|inputs: NameInputs| call_requires(with.build_names, (&inputs,)),
        numeric::is_map(with.weight_class),
        numeric::is_map(with.width_class),
    ensures
        match r {
            Ok(pinned) => static_metadata_pins_to(
                *with,
                *static_metadata,
                *pin,
                user_pin@,
                match ni {
                    Some(ni) => Some(*ni),
                    None => None,
                },
                pinned,
            ),
            Err(cause) => instance::numbers_fail_with(
                with.interpolate,
                *static_metadata,
                *pin,
                cause,
            ),
        },
{
    let number_values: Vec<(Location, Vec<(String, Real)>)> = match instance::pin_number_values(
        static_metadata,
        pin,
        &with.interpolate,
    ) {
        Ok(values) => values,
        Err(cause) => {
            return Err(cause);
        },
    };
    let settings: PostscriptSettings = postscript::pin_postscript(
        static_metadata,
        pin,
        &with.scalars,
        &with.weigh,
        &with.hundreds,
    );
    let mut postscript: Vec<(Location, PostscriptSettings)> = Vec::new();
    postscript.push((static_metadata.default_location.clone(), settings));
    let mut locations: Vec<Location> = Vec::new();
    locations.push(static_metadata.default_location.clone());
    let mut pinned = StaticMetadata {
        units_per_em: static_metadata.units_per_em,
        all_source_axes: coords::copy_axes(&static_metadata.all_source_axes),
        axes: Vec::new(),
        named_instances: Vec::new(),
        variation_model: VariationModel { locations, axis_order: Vec::new() },
        number_values,
        glyph_predicate_attrs: copy_attrs(&static_metadata.glyph_predicate_attrs),
        postscript,
        default_location: static_metadata.default_location.clone(),
        names: match ni {
            Some(ni) => pin_names(static_metadata, ni, &with.build_names),
            None => lookup::copied_values(&static_metadata.names),
        },
        postscript_names: copy_production_names(&static_metadata.postscript_names),
        italic_angle: static_metadata.italic_angle,
        build_vertical: static_metadata.build_vertical,
        misc: static_metadata.misc.clone(),
        variations: None,
    };
    if let Some(ni) = ni {
        pinned.misc.selection_flags = pin_selection_flags(static_metadata, ni);
    }
    pin_os2_classes(
        &mut pinned,
        &static_metadata.axes,
        user_pin,
        &with.weight_class,
        &with.width_class,
    );
    pin_instance_fontinfo(&mut pinned);
    assert(coords::places(pinned.variation_model.locations@) =~= seq![static_metadata.home()]);
    if let Some(ni) = ni {
        let ghost base = pinned;
        pin_instance_overrides(&mut pinned, ni);
        assert(metadata_pins_to(*with, *static_metadata, *pin, user_pin@, Some(*ni), base));
        assert(overridden(base, ni.overrides, pinned));
    }
    Ok(pinned)
}

/// An instance keeps every selection flag of the font that isn't about style.
pub proof fn law_other_selection_flags_are_kept(flags: SelectionFlags, style: Option<StyleMapStyle>)
    ensures
        with_style(flags, style) & !(REGULAR | BOLD | ITALIC) == flags & !(REGULAR | BOLD | ITALIC),
{
    let keep: u16 = !(REGULAR | BOLD | ITALIC);
    assert(!(0x0040u16 | 0x0020u16 | 0x0001u16) == 0xff9eu16) by (bit_vector);
    assert((flags & 0xff9eu16) & 0xff9eu16 == flags & 0xff9eu16) by (bit_vector);
    assert(((flags & 0xff9eu16) | 0x0040u16) & 0xff9eu16 == flags & 0xff9eu16) by (bit_vector);
    assert(((flags & 0xff9eu16) | 0x0020u16) & 0xff9eu16 == flags & 0xff9eu16) by (bit_vector);
    assert(((flags & 0xff9eu16) | 0x0001u16) & 0xff9eu16 == flags & 0xff9eu16) by (bit_vector);
    assert(((flags & 0xff9eu16) | (0x0020u16 | 0x0001u16)) & 0xff9eu16 == flags & 0xff9eu16)
        by (bit_vector);
}

/// An instance that states nothing itself changes nothing.
pub proof fn law_silent_instances_override_nothing(
    before: StaticMetadata,
    overrides: InstanceOverrides,
    after: StaticMetadata,
)
    requires
        overridden(before, overrides, after),
        overrides.panose is None,
        overrides.fs_type is None,
        overrides.is_fixed_pitch is None,
        overrides.unicode_range_bits is None,
        overrides.codepage_range_bits is None,
        overrides.meta_table is None,
        overrides.use_typo_metrics is None,
        overrides.has_wws_names is None,
        overrides.use_production_names is None,
        overrides.postscript_full_name is None,
    ensures
        after.postscript@ == before.postscript@,
        after == (StaticMetadata { postscript: after.postscript, ..before }),
{
}

proof fn lemma_put(names: Seq<(NameKey, Seq<char>)>, key: NameKey, value: Seq<char>)
    ensures
        static_metadata::put(names, key, value).contains((key, value)),
        forall|e: (NameKey, Seq<char>)|
            e.0 != key && #[trigger] names.contains(e) ==> static_metadata::put(
                names,
                key,
                value,
            ).contains(e),
{
    let after = static_metadata::put(names, key, value);
    if static_metadata::has_key(names, key) {
        let i = choose|i: int| 0 <= i < names.len() && (#[trigger] names[i]).0 == key;
        assert(after[i] == (key, value));
    } else {
        assert(after[names.len() as int] == (key, value));
    }
    assert forall|e: (NameKey, Seq<char>)| e.0 != key && #[trigger] names.contains(e) implies
        after.contains(e) by {
        let i = choose|i: int| 0 <= i < names.len() && names[i] == e;
        assert(after[i] == e);
    }
}

/// The name table of an instance holds every record that the instance states
/// outright: of two with one key, the last.
pub proof fn law_stated_records_are_in_the_table(
    names: Seq<(NameKey, Seq<char>)>,
    stated: Seq<(NameKey, Seq<char>)>,
    i: int,
)
    requires
        0 <= i < stated.len(),
        forall|j: int| i < j < stated.len() ==> (#[trigger] stated[j]).0 != stated[i].0,
    ensures
        put_all(names, stated).contains(stated[i]),
    decreases stated.len(),
{
    let rest = stated.drop_last();
    let last = stated.last();
    let before = put_all(names, rest);
    let after = static_metadata::put(before, last.0, last.1);
    lemma_put(before, last.0, last.1);
    if i < stated.len() - 1 {
        assert(rest[i] == stated[i]);
        assert forall|j: int| i < j < rest.len() implies (#[trigger] rest[j]).0 != rest[i].0 by {
            assert(rest[j] == stated[j]);
        }
        law_stated_records_are_in_the_table(names, rest, i);
        assert(stated[stated.len() - 1].0 != stated[i].0);
    }
}

/// A pinned font is static, and keeps its default location; whatever is pinned
/// of a glyph is found there, and nowhere else.
pub proof fn law_pinned_glyphs_are_at_the_default<
    G: Fn(&instance::GlyphModel, &glyph::Glyph, &Location) -> Result<
        glyph::GlyphInstance,
        String,
    >,
    I: Fn(&Vec<(Location, Real)>, &Vec<Tag>, &Location) -> Result<Option<Real>, String>,
    S: Fn(&Vec<Location>, &Location) -> Vec<(Location, Real)>,
    W: Fn(&Vec<(Real, Real)>) -> Real,
    H: Fn(Real) -> i32,
    B: Fn(&NameInputs) -> Vec<(NameKey, String)>,
    C: Fn(Real) -> u16,
    D: Fn(Real) -> u16,
>(
    interpolate: G,
    with: PinArithmetic<I, S, W, H, B, C, D>,
    whole: StaticMetadata,
    pin: Location,
    user_pin: Map<Tag, Real>,
    ni: Option<NamedInstance>,
    pinned: StaticMetadata,
    glyph: glyph::Glyph,
    pinned_glyph: glyph::Glyph,
)
    requires
        static_metadata_pins_to(with, whole, pin, user_pin, ni, pinned),
        instance::glyph_pins_to(interpolate, whole, glyph, pin, pinned_glyph),
    ensures
        pinned.axes@.len() == 0,
        pinned.variations is None,
        pinned.home() == whole.home(),
        coords::places(pinned.variation_model.locations@) == seq![whole.home()],
        instance::source_places(pinned_glyph) == seq![pinned.home()],
{
    assert(instance::source_places(pinned_glyph) =~= seq![pinned.home()]);
}

/// Setting records one after the other leaves every key there once.
pub proof fn law_put_all_keeps_keys_apart(
    names: Seq<(NameKey, Seq<char>)>,
    more: Seq<(NameKey, Seq<char>)>,
)
    requires
        lookup::keyed(names),
    ensures
        lookup::keyed(put_all(names, more)),
    decreases more.len(),
{
    if more.len() > 0 {
        law_put_all_keeps_keys_apart(names, more.drop_last());
        static_metadata::law_put_keeps_keys_apart(
            put_all(names, more.drop_last()),
            more.last().0,
            more.last().1,
        );
    }
}

/// Every table that `build` makes has each key once.
pub open spec fn builds_keyed_tables<B: Fn(&NameInputs) -> Vec<(NameKey, String)>>(
    build: B,
) -> bool {
    forall|inputs: NameInputs, built: Vec<(NameKey, String)>| #[trigger]
        call_ensures(build, (&inputs,), built) ==> lookup::keyed(static_metadata::records(built@))
}

/// The name table of an instance has each key once.
pub proof fn law_pinned_names_are_keyed<B: Fn(&NameInputs) -> Vec<(NameKey, String)>>(
    build: B,
    whole: StaticMetadata,
    ni: NamedInstance,
    names: Seq<(NameKey, Seq<char>)>,
)
    requires
        builds_keyed_tables(build),
        names_pin_to(build, whole, ni, names),
    ensures
        lookup::keyed(names),
{
    let (inputs, built) = choose|inputs: NameInputs, built: Vec<(NameKey, String)>| #[trigger]
        call_ensures(build, (&inputs,), built) && are_inputs_for(whole, ni, inputs) && names
            == finished_names(static_metadata::records(built@), whole, ni);
    let start = static_metadata::records(built@);
    let foreign = foreign_names(static_metadata::records(whole.names@));
    law_put_all_keeps_keys_apart(start, foreign);
    law_put_all_keeps_keys_apart(
        put_all(start, foreign),
        static_metadata::records(ni.overrides.name_records@),
    );
}

proof fn lemma_base_is_keyed<
    I: Fn(&Vec<(Location, Real)>, &Vec<Tag>, &Location) -> Result<Option<Real>, String>,
    S: Fn(&Vec<Location>, &Location) -> Vec<(Location, Real)>,
    W: Fn(&Vec<(Real, Real)>) -> Real,
    H: Fn(Real) -> i32,
    B: Fn(&NameInputs) -> Vec<(NameKey, String)>,
    C: Fn(Real) -> u16,
    D: Fn(Real) -> u16,
>(
    with: PinArithmetic<I, S, W, H, B, C, D>,
    whole: StaticMetadata,
    pin: Location,
    user_pin: Map<Tag, Real>,
    ni: Option<NamedInstance>,
    pinned: StaticMetadata,
)
    requires
        whole.is_keyed(),
        builds_keyed_tables(with.build_names),
        metadata_pins_to(with, whole, pin, user_pin, ni, pinned),
    ensures
        pinned.is_keyed(),
{
    match ni {
        Some(ni) => {
            law_pinned_names_are_keyed(
                with.build_names,
                whole,
                ni,
                static_metadata::records(pinned.names@),
            );
        },
        None => {},
    }
    let numbers = pinned.number_values@;
    if whole.number_values@.len() > 0 {
        let all = instance::all_number_names(whole.number_values@);
        lookup::lemma_first_seen_contains(all);
        let names = instance::number_names(numbers[0].1@);
        assert forall|i: int, j: int| 0 <= i < j < numbers[0].1@.len() implies numbers[0].1@[i].0@
            != numbers[0].1@[j].0@ by {
            assert(names[i] != names[j]);
        }
    }
}

/// The static metadata of an instance has every key once, if that of the font
/// has.
pub proof fn law_pinned_metadata_is_keyed<
    I: Fn(&Vec<(Location, Real)>, &Vec<Tag>, &Location) -> Result<Option<Real>, String>,
    S: Fn(&Vec<Location>, &Location) -> Vec<(Location, Real)>,
    W: Fn(&Vec<(Real, Real)>) -> Real,
    H: Fn(Real) -> i32,
    B: Fn(&NameInputs) -> Vec<(NameKey, String)>,
    C: Fn(Real) -> u16,
    D: Fn(Real) -> u16,
>(
    with: PinArithmetic<I, S, W, H, B, C, D>,
    whole: StaticMetadata,
    pin: Location,
    user_pin: Map<Tag, Real>,
    ni: Option<NamedInstance>,
    pinned: StaticMetadata,
)
    requires
        whole.is_keyed(),
        builds_keyed_tables(with.build_names),
        static_metadata_pins_to(with, whole, pin, user_pin, ni, pinned),
    ensures
        pinned.is_keyed(),
{
    match ni {
        Some(n) => {
            let base = choose|base: StaticMetadata|
                metadata_pins_to(with, whole, pin, user_pin, ni, base) && #[trigger] overridden(
                    base,
                    n.overrides,
                    pinned,
                );
            lemma_base_is_keyed(with, whole, pin, user_pin, ni, base);
            assert(pinned.postscript@.len() == 1);
        },
        None => {
            lemma_base_is_keyed(with, whole, pin, user_pin, ni, pinned);
        },
    }
}

/// The style flags of an instance are those of the style that it states, or of
/// its own name if it states none: bold, italic, both, or regular, in any
/// mixture of small and capital letters. Whatever the flags of the font say of
/// style is gone.
pub proof fn law_an_instance_is_flagged_by_its_style(flags: SelectionFlags, ni: NamedInstance)
    ensures
        ({
            let style = match ni.style_map_style_name {
                Some(stated) => stated@,
                None => ni.name@,
            };
            let r = with_style(flags, linked_style(ni));
            &&& text::spelled_in_any_case(style, "regular"@, "REGULAR"@) ==> r & 0x61 == 0x40
            &&& text::spelled_in_any_case(style, "bold"@, "BOLD"@) ==> r & 0x61 == 0x20
            &&& text::spelled_in_any_case(style, "italic"@, "ITALIC"@) ==> r & 0x61 == 0x01
            &&& text::spelled_in_any_case(style, "bold italic"@, "BOLD ITALIC"@) ==> r & 0x61
                == 0x21
            &&& r & 0xff9e == flags & 0xff9e
        }),
{
    let style = match ni.style_map_style_name {
        Some(stated) => stated@,
        None => ni.name@,
    };
    static_metadata::law_styles_are_stated_by_their_names(Seq::empty(), style, Seq::empty());
    assert(Seq::<char>::empty() + style + Seq::<char>::empty() =~= style);
    lemma_style_bits(flags);
}

proof fn lemma_style_bits(flags: SelectionFlags)
    ensures
        with_style(flags, None) & 0x61 == 0,
        with_style(flags, Some(StyleMapStyle::Regular)) & 0x61 == 0x40,
        with_style(flags, Some(StyleMapStyle::Bold)) & 0x61 == 0x20,
        with_style(flags, Some(StyleMapStyle::Italic)) & 0x61 == 0x01,
        with_style(flags, Some(StyleMapStyle::BoldItalic)) & 0x61 == 0x21,
        forall|style: Option<StyleMapStyle>| #[trigger]
            with_style(flags, style) & 0xff9e == flags & 0xff9e,
{
    assert(!(0x0040u16 | 0x0020u16 | 0x0001u16) == 0xff9eu16 && 0x0020u16 | 0x0001u16 == 0x0021u16)
        by (bit_vector);
    assert((flags & 0xff9eu16) & 0x61u16 == 0u16 && ((flags & 0xff9eu16) | 0x40u16) & 0x61u16
        == 0x40u16 && ((flags & 0xff9eu16) | 0x20u16) & 0x61u16 == 0x20u16 && ((flags & 0xff9eu16)
        | 0x01u16) & 0x61u16 == 0x01u16 && ((flags & 0xff9eu16) | 0x21u16) & 0x61u16 == 0x21u16)
        by (bit_vector);
    assert forall|style: Option<StyleMapStyle>| #[trigger]
        with_style(flags, style) & 0xff9e == flags & 0xff9e by {
        law_other_selection_flags_are_kept(flags, style);
    }
}

/// A style that is stated but is none of the four earns no style flag. Only an
/// instance that states none, and whose name is none of the four, is regular
/// by default.
pub proof fn law_only_unstated_styles_fall_back_to_regular(
    flags: SelectionFlags,
    ni: NamedInstance,
)
    ensures
        ({
            let style = text::lowercase(
                text::trimmed(
                    match ni.style_map_style_name {
                        Some(stated) => stated@,
                        None => ni.name@,
                    },
                ),
            );
            let r = with_style(flags, linked_style(ni));
            style != "regular"@ && style != "bold"@ && style != "italic"@ && style != "bold italic"@
                ==> r & 0x61 == (if ni.style_map_style_name is Some {
                0u16
            } else {
                0x40u16
            })
        }),
{
    lemma_style_bits(flags);
}

/// An instance inherits the US English records of a font, but not those that
/// are derived from what it is called: 1 to 4, 6, 16 and 17, which are rebuilt,
/// and 18, 21, 22 and 25, which go.
pub proof fn law_derived_names_are_not_inherited(
    names: Seq<(NameKey, Seq<char>)>,
    key: NameKey,
    value: Seq<char>,
)
    ensures
        kept_names(Seq::empty()).len() == 0,
        ({
            let id = key.name_id;
            let derived = (1 <= id <= 4) || id == 6 || (16 <= id <= 18) || id == 21 || id == 22 || id
                == 25;
            kept_names(names.push((key, value))) == if key.lang_id == 0x409 && !derived {
                kept_names(names).push((key, value))
            } else {
                kept_names(names)
            }
        }),
{
    assert(names.push((key, value)).drop_last() =~= names);
}

proof fn lemma_kept_names_are_kept(names: Seq<(NameKey, Seq<char>)>, i: int)
    requires
        0 <= i < names.len(),
        is_kept(names[i].0),
    ensures
        kept_names(names).contains(names[i]),
    decreases names.len(),
{
    let rest = names.drop_last();
    if i < rest.len() {
        assert(rest[i] == names[i]);
        lemma_kept_names_are_kept(rest, i);
        let k = choose|k: int| 0 <= k < kept_names(rest).len() && kept_names(rest)[k] == names[i];
        assert(kept_names(names)[k] == names[i]);
    } else {
        assert(kept_names(names)[kept_names(rest).len() as int] == names[i]);
    }
}

/// The table of an instance is built from every record that it inherits, with
/// its id, and from the version and vendor of the font.
pub proof fn law_inherited_names_go_into_the_table(
    whole: StaticMetadata,
    ni: NamedInstance,
    inputs: NameInputs,
    i: int,
)
    requires
        are_inputs_for(whole, ni, inputs),
        0 <= i < whole.names@.len(),
        whole.names@[i].0.lang_id == 0x409,
        ({
            let id = whole.names@[i].0.name_id;
            id == 0 || id == 5 || 7 <= id <= 15 || id == 19 || id == 20 || id == 23 || id == 24 || id
                > 25
        }),
    ensures
        exists|k: int|
            0 <= k < inputs.names@.len() && (#[trigger] inputs.names@[k]).0
                == whole.names@[i].0.name_id && inputs.names@[k].1@ == whole.names@[i].1@,
        inputs.version_major == whole.misc.version_major,
        inputs.version_minor == whole.misc.version_minor,
        whole.misc.raw_vendor_id matches Some(raw) ==> inputs.vendor_id@ == raw@,
{
    let all = static_metadata::records(whole.names@);
    let kept = choose|kept: Seq<(NameKey, Seq<char>)>|
        #![trigger keys_ascend(kept)]
        keys_ascend(kept) && kept.to_multiset() == kept_names(all).to_multiset() && id_names(
            inputs.names@,
        ) == by_id(kept) + instance_names(ni);
    lemma_kept_names_are_kept(all, i);
    let record = all[i];
    broadcast use vstd::seq_lib::group_to_multiset_ensures;

    assert(kept_names(all).to_multiset().count(record) > 0);
    assert(kept.contains(record));
    let k = choose|k: int| 0 <= k < kept.len() && kept[k] == record;
    assert(by_id(kept)[k] == (record.0.name_id, record.1));
    let listed = id_names(inputs.names@);
    assert(listed == by_id(kept) + instance_names(ni));
    assert(listed[k] == (record.0.name_id, record.1));
    assert(listed.len() == inputs.names@.len());
    assert(listed[k] == (inputs.names@[k].0, inputs.names@[k].1@));
}

/// What an instance says of its own names, and under which ids: its family
/// (16), its name (17), its family (1) and its style (2) for style linking, the
/// latter in title case, and its PostScript name (6), each if it states it; and
/// behind all of them what it states outright.
pub proof fn law_instances_state_their_own_names(ni: NamedInstance)
    ensures
        instance_names(ni).contains((17, ni.name@)),
        ni.family_name matches Some(name) ==> instance_names(ni).contains((16, name@)),
        ni.style_map_family_name matches Some(name) ==> instance_names(ni).contains((1, name@)),
        ni.style_map_style_name matches Some(name) ==> instance_names(ni).contains(
            (2, text::titled(name@)),
        ),
        ni.postscript_name matches Some(name) ==> instance_names(ni).contains((6, name@)),
        instance_names(ni).len() == 1 + ni.overrides.names@.len() + (if ni.family_name is Some {
            1int
        } else {
            0
        }) + (if ni.style_map_family_name is Some {
            1int
        } else {
            0
        }) + (if ni.style_map_style_name is Some {
            1int
        } else {
            0
        }) + (if ni.postscript_name is Some {
            1int
        } else {
            0
        }),
        forall|i: int|
            0 <= i < ni.overrides.names@.len() ==> instance_names(ni)[instance_names(ni).len()
                - ni.overrides.names@.len() + i] == (
                (#[trigger] ni.overrides.names@[i]).0,
                ni.overrides.names@[i].1@,
            ),
{
    let all = instance_names(ni);
    let a: int = if ni.family_name is Some {
        1
    } else {
        0
    };
    let b: int = a + 1;
    let c: int = b + if ni.style_map_family_name is Some {
        1int
    } else {
        0
    };
    let d: int = c + if ni.style_map_style_name is Some {
        1int
    } else {
        0
    };
    assert(all[a] == (17u16, ni.name@));
    if let Some(name) = ni.family_name {
        assert(all[0] == (16u16, name@));
    }
    if let Some(name) = ni.style_map_family_name {
        assert(all[b] == (1u16, name@));
    }
    if let Some(name) = ni.style_map_style_name {
        assert(all[c] == (2u16, text::titled(name@)));
    }
    if let Some(name) = ni.postscript_name {
        assert(all[d] == (6u16, name@));
    }
}

proof fn lemma_put_all_keeps_other_records(
    names: Seq<(NameKey, Seq<char>)>,
    more: Seq<(NameKey, Seq<char>)>,
    record: (NameKey, Seq<char>),
)
    requires
        names.contains(record),
        forall|i: int| 0 <= i < more.len() ==> (#[trigger] more[i]).0 != record.0,
    ensures
        put_all(names, more).contains(record),
    decreases more.len(),
{
    if more.len() > 0 {
        let rest = more.drop_last();
        assert forall|i: int| 0 <= i < rest.len() implies (#[trigger] rest[i]).0 != record.0 by {
            assert(rest[i] == more[i]);
        }
        lemma_put_all_keeps_other_records(names, rest, record);
        let before = put_all(names, rest);
        let k = choose|k: int| 0 <= k < before.len() && before[k] == record;
        assert(more.last() == more[more.len() - 1]);
        static_metadata::law_setting_a_record_changes_that_record(
            before,
            more.last().0,
            more.last().1,
            k,
        );
        assert(put_all(names, more)[k] == record);
    }
}

proof fn lemma_foreign_names_are_all(names: Seq<(NameKey, Seq<char>)>)
    ensures
        forall|i: int|
            0 <= i < names.len() && (#[trigger] names[i]).0.lang_id != 0x409 ==> foreign_names(
                names,
            ).contains(names[i]),
        forall|i: int|
            0 <= i < foreign_names(names).len() ==> (#[trigger] foreign_names(names)[i]).0.lang_id
                != 0x409 && names.contains(foreign_names(names)[i]),
    decreases names.len(),
{
    if names.len() > 0 {
        let rest = names.drop_last();
        lemma_foreign_names_are_all(rest);
        let before = foreign_names(rest);
        let after = foreign_names(names);
        assert forall|i: int|
            0 <= i < names.len() && (#[trigger] names[i]).0.lang_id != 0x409 implies after.contains(
            names[i],
        ) by {
            if i < rest.len() {
                assert(rest[i] == names[i]);
                let k = choose|k: int| 0 <= k < before.len() && before[k] == names[i];
                assert(after[k] == names[i]);
            } else {
                assert(after[before.len() as int] == names[i]);
            }
        }
        assert forall|i: int| 0 <= i < after.len() implies (#[trigger] after[i]).0.lang_id != 0x409
            && names.contains(after[i]) by {
            if i < before.len() {
                assert(after[i] == before[i]);
                let k = choose|k: int| 0 <= k < rest.len() && rest[k] == before[i];
                assert(names[k] == after[i]);
            } else {
                assert(names[names.len() - 1] == after[i]);
            }
        }
    }
}

/// Records in other languages than US English come through as they are, unless
/// the instance states one under the same key. Records that were built come
/// through unless one of either sort is under the same key.
pub proof fn law_foreign_records_come_through(
    built: Seq<(NameKey, Seq<char>)>,
    whole: StaticMetadata,
    ni: NamedInstance,
    i: int,
)
    requires
        lookup::keyed(static_metadata::records(whole.names@)),
    ensures
        0 <= i < whole.names@.len() && whole.names@[i].0.lang_id != 0x409 && (forall|k: int|
            0 <= k < ni.overrides.name_records@.len() ==> (
            #[trigger] ni.overrides.name_records@[k]).0 != whole.names@[i].0) ==> finished_names(
            built,
            whole,
            ni,
        ).contains((whole.names@[i].0, whole.names@[i].1@)),
        0 <= i < built.len() && built[i].0.lang_id == 0x409 && (forall|k: int|
            0 <= k < ni.overrides.name_records@.len() ==> (
            #[trigger] ni.overrides.name_records@[k]).0 != built[i].0) ==> finished_names(
            built,
            whole,
            ni,
        ).contains(built[i]),
{
    let names = static_metadata::records(whole.names@);
    let foreign = foreign_names(names);
    let stated = static_metadata::records(ni.overrides.name_records@);
    let middle = put_all(built, foreign);
    lemma_foreign_names_are_all(names);
    if 0 <= i < whole.names@.len() && whole.names@[i].0.lang_id != 0x409 && (forall|k: int|
        0 <= k < ni.overrides.name_records@.len() ==> (#[trigger] ni.overrides.name_records@[k]).0
            != whole.names@[i].0) {
        let record = names[i];
        let f = choose|f: int| 0 <= f < foreign.len() && foreign[f] == record;
        lemma_foreign_is_keyed(names);
        assert forall|j: int| f < j < foreign.len() implies (#[trigger] foreign[j]).0
            != foreign[f].0 by {}
        law_stated_records_are_in_the_table(built, foreign, f);
        assert forall|k: int| 0 <= k < stated.len() implies (#[trigger] stated[k]).0 != record.0 by {
            assert(stated[k].0 == ni.overrides.name_records@[k].0);
        }
        lemma_put_all_keeps_other_records(middle, stated, record);
    }
    if 0 <= i < built.len() && built[i].0.lang_id == 0x409 && (forall|k: int|
        0 <= k < ni.overrides.name_records@.len() ==> (#[trigger] ni.overrides.name_records@[k]).0
            != built[i].0) {
        assert(built.contains(built[i]));
        lemma_put_all_keeps_other_records(built, foreign, built[i]);
        assert forall|k: int| 0 <= k < stated.len() implies (#[trigger] stated[k]).0 != built[i].0 by {
            assert(stated[k].0 == ni.overrides.name_records@[k].0);
        }
        lemma_put_all_keeps_other_records(middle, stated, built[i]);
    }
}

proof fn lemma_foreign_is_keyed(names: Seq<(NameKey, Seq<char>)>)
    requires
        lookup::keyed(names),
    ensures
        lookup::keyed(foreign_names(names)),
    decreases names.len(),
{
    if names.len() > 0 {
        let rest = names.drop_last();
        assert forall|i: int, j: int| 0 <= i < j < rest.len() implies (#[trigger] rest[i]).0 != (
        #[trigger] rest[j]).0 by {
            assert(names[i].0 != names[j].0);
        }
        lemma_foreign_is_keyed(rest);
        lemma_foreign_names_are_all(rest);
        let before = foreign_names(rest);
        let after = foreign_names(names);
        assert forall|i: int, j: int| 0 <= i < j < after.len() implies (#[trigger] after[i]).0 != (
        #[trigger] after[j]).0 by {
            assert(after[i] == before[i]);
            if j < before.len() {
                assert(after[j] == before[j]);
            } else {
                assert(rest.contains(before[i]));
                let k = choose|k: int| 0 <= k < rest.len() && rest[k] == before[i];
                assert(names[k].0 != names[names.len() - 1].0);
            }
        }
    }
}

/// The weight class of an instance comes of where it is on the weight axis, the
/// width class of where it is on the width axis, and each stays as it was in a
/// font without that axis. An axis that the pin does not name is at its
/// default.
pub proof fn law_classes_follow_their_own_axes<
    I: Fn(&Vec<(Location, Real)>, &Vec<Tag>, &Location) -> Result<Option<Real>, String>,
    S: Fn(&Vec<Location>, &Location) -> Vec<(Location, Real)>,
    W: Fn(&Vec<(Real, Real)>) -> Real,
    H: Fn(Real) -> i32,
    B: Fn(&NameInputs) -> Vec<(NameKey, String)>,
    C: Fn(Real) -> u16,
    D: Fn(Real) -> u16,
>(
    with: PinArithmetic<I, S, W, H, B, C, D>,
    whole: StaticMetadata,
    pin: Location,
    user_pin: Map<Tag, Real>,
    ni: Option<NamedInstance>,
    pinned: StaticMetadata,
    k: int,
)
    requires
        static_metadata_pins_to(with, whole, pin, user_pin, ni, pinned),
        forall|a: int, b: int| 0 <= a < b < whole.axes@.len() ==> whole.axes@[a].tag
            != whole.axes@[b].tag,
    ensures
        0 <= k < whole.axes@.len() && whole.axes@[k].tag.0 == 0x77676874 ==> pinned.misc.us_weight_class
            == Some(
            numeric::image(
                with.weight_class,
                if user_pin.contains_key(whole.axes@[k].tag) {
                    user_pin[whole.axes@[k].tag]
                } else {
                    whole.axes@[k].default
                },
            ),
        ),
        0 <= k < whole.axes@.len() && whole.axes@[k].tag.0 == 0x77647468 ==> pinned.misc.us_width_class
            == Some(
            numeric::image(
                with.width_class,
                if user_pin.contains_key(whole.axes@[k].tag) {
                    user_pin[whole.axes@[k].tag]
                } else {
                    whole.axes@[k].default
                },
            ),
        ),
        (forall|i: int| 0 <= i < whole.axes@.len() ==> (#[trigger] whole.axes@[i]).tag.0 != 0x77676874)
            ==> pinned.misc.us_weight_class == whole.misc.us_weight_class,
        (forall|i: int| 0 <= i < whole.axes@.len() ==> (#[trigger] whole.axes@[i]).tag.0 != 0x77647468)
            ==> pinned.misc.us_width_class == whole.misc.us_width_class,
{
    coords::lemma_axis_with(whole.axes@, Tag(0x77676874));
    coords::lemma_axis_with(whole.axes@, Tag(0x77647468));
    let base = choose|base: StaticMetadata|
        metadata_pins_to(with, whole, pin, user_pin, ni, base) && #[trigger] overridden(
            base,
            ni->0.overrides,
            pinned,
        );
}

/// An instance has the PANOSE merged for instances and the embedding of the
/// font, or editable embedding (8) if the font states none, unless it states
/// its own. It is as wide, as slanted and as large as the font, is static, and
/// keeps the version.
pub proof fn law_what_an_instance_keeps_of_its_font<
    I: Fn(&Vec<(Location, Real)>, &Vec<Tag>, &Location) -> Result<Option<Real>, String>,
    S: Fn(&Vec<Location>, &Location) -> Vec<(Location, Real)>,
    W: Fn(&Vec<(Real, Real)>) -> Real,
    H: Fn(Real) -> i32,
    B: Fn(&NameInputs) -> Vec<(NameKey, String)>,
    C: Fn(Real) -> u16,
    D: Fn(Real) -> u16,
>(
    with: PinArithmetic<I, S, W, H, B, C, D>,
    whole: StaticMetadata,
    pin: Location,
    user_pin: Map<Tag, Real>,
    ni: Option<NamedInstance>,
    pinned: StaticMetadata,
)
    requires
        static_metadata_pins_to(with, whole, pin, user_pin, ni, pinned),
    ensures
        pinned.units_per_em == whole.units_per_em,
        pinned.italic_angle == whole.italic_angle,
        pinned.build_vertical == whole.build_vertical,
        pinned.default_location@ == whole.default_location@,
        pinned.axes@.len() == 0,
        pinned.named_instances@.len() == 0,
        pinned.variations is None,
        pinned.variation_model.locations@.len() == 1,
        pinned.variation_model.locations@[0]@ == whole.default_location@,
        pinned.variation_model.axis_order@.len() == 0,
        pinned.postscript@.len() == 1,
        pinned.postscript@[0].0@ == whole.default_location@,
        pinned.misc.version_major == whole.misc.version_major,
        pinned.misc.version_minor == whole.misc.version_minor,
        pinned.misc.vendor_id == whole.misc.vendor_id,
        pinned.misc.head_flags == whole.misc.head_flags,
        pinned.misc.lowest_rec_ppm == whole.misc.lowest_rec_ppm,
        pinned.misc.family_class == whole.misc.family_class,
        pinned.misc.created == whole.misc.created,
        pinned.misc.gasp@ == whole.misc.gasp@,
        (match ni {
            Some(ni) => ni.overrides.panose,
            None => None,
        }) is None ==> pinned.misc.panose == whole.misc.instance_panose,
        (match ni {
            Some(ni) => ni.overrides.fs_type,
            None => None,
        }) is None ==> pinned.misc.fs_type == Some(
            match whole.misc.fs_type {
                Some(fs_type) => fs_type,
                None => 8u16,
            },
        ),
        ni is None ==> pinned.names@ == whole.names@ && pinned.misc.selection_flags
            == whole.misc.selection_flags && pinned.misc.is_fixed_pitch == whole.misc.is_fixed_pitch,
{
    if let Some(n) = ni {
        let base = choose|base: StaticMetadata|
            metadata_pins_to(with, whole, pin, user_pin, ni, base) && #[trigger] overridden(
                base,
                n.overrides,
                pinned,
            );
        assert(coords::places(base.variation_model.locations@) == seq![whole.home()]);
        assert(coords::places(base.variation_model.locations@)[0] == whole.home());
    } else {
        assert(coords::places(pinned.variation_model.locations@) == seq![whole.home()]);
        assert(coords::places(pinned.variation_model.locations@)[0] == whole.home());
    }
}

/// What an instance states itself beats everything else, field by field, and
/// what it does not state stays as it was.
pub proof fn law_instances_override_field_by_field(
    before: StaticMetadata,
    overrides: InstanceOverrides,
    after: StaticMetadata,
)
    requires
        overridden(before, overrides, after),
    ensures
        after.misc.panose == (if overrides.panose is Some {
            overrides.panose
        } else {
            before.misc.panose
        }),
        after.misc.fs_type == (if overrides.fs_type is Some {
            overrides.fs_type
        } else {
            before.misc.fs_type
        }),
        after.misc.is_fixed_pitch == (if overrides.is_fixed_pitch is Some {
            overrides.is_fixed_pitch
        } else {
            before.misc.is_fixed_pitch
        }),
        overrides.unicode_range_bits matches Some(bits) ==> (after.misc.unicode_range_bits matches Some(
            now,
        ) && now@ == bits@),
        overrides.unicode_range_bits is None ==> after.misc.unicode_range_bits
            == before.misc.unicode_range_bits,
        overrides.codepage_range_bits matches Some(bits) ==> (
        after.misc.codepage_range_bits matches Some(now) && now@ == bits@),
        overrides.codepage_range_bits is None ==> after.misc.codepage_range_bits
            == before.misc.codepage_range_bits,
        overrides.meta_table matches Some(meta) ==> (after.misc.meta_table matches Some(now)
            && now.dlng@ == meta.dlng@ && now.slng@ == meta.slng@),
        overrides.meta_table is None ==> after.misc.meta_table == before.misc.meta_table,
        overrides.use_production_names == Some(false) ==> after.postscript_names is None,
        overrides.use_production_names != Some(false) ==> after.postscript_names
            == before.postscript_names,
        after.postscript@.len() == before.postscript@.len(),
        forall|i: int|
            0 <= i < before.postscript@.len() ==> (#[trigger] after.postscript@[i]).0
                == before.postscript@[i].0 && after.postscript@[i].1.full_name == (
            if overrides.postscript_full_name is Some {
                overrides.postscript_full_name
            } else {
                before.postscript@[i].1.full_name
            }) && after.postscript@[i].1.weight_name == before.postscript@[i].1.weight_name
                && after.postscript@[i].1.blue_values == before.postscript@[i].1.blue_values
                && after.postscript@[i].1.stem_snap_h == before.postscript@[i].1.stem_snap_h
                && after.postscript@[i].1.stem_snap_v == before.postscript@[i].1.stem_snap_v,
        after.names == before.names,
        after.axes == before.axes,
        after.units_per_em == before.units_per_em,
        after.italic_angle == before.italic_angle,
        after.misc.us_weight_class == before.misc.us_weight_class,
        after.misc.us_width_class == before.misc.us_width_class,
{
}

/// The two selection flags that an instance may state are bit 7, for typographic
/// metrics, and bit 8, for names of weight, width and slope. Each is set or
/// cleared as stated, and no other flag changes.
pub proof fn law_stated_flags_are_set_or_cleared(
    before: StaticMetadata,
    overrides: InstanceOverrides,
    after: StaticMetadata,
)
    requires
        overridden(before, overrides, after),
    ensures
        ({
            let was = before.misc.selection_flags;
            let now = after.misc.selection_flags;
            &&& now & 0xfe7f == was & 0xfe7f
            &&& overrides.use_typo_metrics == Some(true) ==> now & 0x80 == 0x80
            &&& overrides.use_typo_metrics == Some(false) ==> now & 0x80 == 0
            &&& overrides.use_typo_metrics is None ==> now & 0x80 == was & 0x80
            &&& overrides.has_wws_names == Some(true) ==> now & 0x100 == 0x100
            &&& overrides.has_wws_names == Some(false) ==> now & 0x100 == 0
            &&& overrides.has_wws_names is None ==> now & 0x100 == was & 0x100
        }),
{
    let was = before.misc.selection_flags;
    let one = with_flag(was, 0x80, overrides.use_typo_metrics);
    lemma_flag_bits(was);
    lemma_flag_bits(one);
}

proof fn lemma_flag_bits(f: u16)
    ensures
        (f | 0x80) & 0xfe7f == f & 0xfe7f && (f | 0x80) & 0x80 == 0x80 && (f | 0x80) & 0x100 == f
            & 0x100,
        (f & !0x80u16) & 0xfe7f == f & 0xfe7f && (f & !0x80u16) & 0x80 == 0 && (f & !0x80u16) & 0x100
            == f & 0x100,
        (f | 0x100) & 0xfe7f == f & 0xfe7f && (f | 0x100) & 0x100 == 0x100 && (f | 0x100) & 0x80
            == f & 0x80,
        (f & !0x100u16) & 0xfe7f == f & 0xfe7f && (f & !0x100u16) & 0x100 == 0 && (f & !0x100u16)
            & 0x80 == f & 0x80,
{
    assert((f | 0x80u16) & 0xfe7fu16 == f & 0xfe7fu16 && (f | 0x80u16) & 0x80u16 == 0x80u16 && (f
        | 0x80u16) & 0x100u16 == f & 0x100u16 && (f & !0x80u16) & 0xfe7fu16 == f & 0xfe7fu16 && (f
        & !0x80u16) & 0x80u16 == 0u16 && (f & !0x80u16) & 0x100u16 == f & 0x100u16) by (bit_vector);
    assert((f | 0x100u16) & 0xfe7fu16 == f & 0xfe7fu16 && (f | 0x100u16) & 0x100u16 == 0x100u16 && (
    f | 0x100u16) & 0x80u16 == f & 0x80u16 && (f & !0x100u16) & 0xfe7fu16 == f & 0xfe7fu16 && (f
        & !0x100u16) & 0x100u16 == 0u16 && (f & !0x100u16) & 0x80u16 == f & 0x80u16) by (bit_vector);
}

/// Keys are in order of their name ids first, and then of platform, encoding
/// and language.
pub proof fn law_keys_are_in_order_of_their_name_ids(a: NameKey, b: NameKey)
    ensures
        a.name_id < b.name_id ==> key_le(a, b) && !key_le(b, a),
        a.name_id == b.name_id && a.platform_id < b.platform_id ==> key_le(a, b) && !key_le(b, a),
        a.name_id == b.name_id && a.platform_id == b.platform_id && a.encoding_id < b.encoding_id
            ==> key_le(a, b) && !key_le(b, a),
        a.name_id == b.name_id && a.platform_id == b.platform_id && a.encoding_id == b.encoding_id
            ==> (key_le(a, b) <==> a.lang_id <= b.lang_id),
{
}

} // verus!
