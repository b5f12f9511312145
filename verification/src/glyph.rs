//! Glyphs, anchors and kerning, and what it means to swap two glyphs.

use crate::cff::PathEl;
use crate::coords::{Location, Real, Tag};
use crate::lookup;
use vstd::prelude::*;

verus! {

/// A glyph drawn as part of another.
#[derive(Debug, PartialEq, Eq)]
pub struct Component {
    pub base: String,
    /// The six coefficients of an affine map.
    pub transform: [Real; 6],
    /// The anchor of the other glyph that it is attached to, if it names one.
    pub anchor: Option<String>,
}

/// How a glyph is drawn at one location.
#[derive(Debug, Default, PartialEq, Eq)]
pub struct GlyphInstance {
    pub width: Real,
    pub height: Option<Real>,
    pub vertical_origin: Option<Real>,
    pub contours: Vec<Vec<PathEl>>,
    pub components: Vec<Component>,
}

/// A glyph, and how it is drawn at each of its sources.
#[derive(Debug, Clone, PartialEq, Eq)]
pub struct Glyph {
    pub name: String,
    pub emit_to_binary: bool,
    pub codepoints: Vec<u32>,
    pub sources: Vec<(Location, GlyphInstance)>,
}

/// A named point of a glyph.
#[derive(Debug, Clone, PartialEq, Eq)]
pub struct Anchor {
    pub kind: String,
    pub original_name: String,
    pub positions: Vec<(Location, (Real, Real))>,
}

/// The anchors of a glyph.
#[derive(Debug, Clone, PartialEq, Eq)]
pub struct GlyphAnchors {
    pub glyph_name: String,
    pub anchors: Vec<Anchor>,
}

impl Component {
    pub open spec fn same_as(&self, other: &Component) -> bool {
        self.base == other.base && self.transform == other.transform && self.anchor == other.anchor
    }
}

/// What a component is.
pub struct ComponentView {
    pub base: Seq<char>,
    pub transform: [Real; 6],
    pub anchor: Option<String>,
}

impl View for Component {
    type V = ComponentView;

    open spec fn view(&self) -> ComponentView {
        ComponentView { base: self.base@, transform: self.transform, anchor: self.anchor }
    }
}

/// How a glyph is drawn at one location.
pub struct DrawingView {
    pub width: Real,
    pub height: Option<Real>,
    pub vertical_origin: Option<Real>,
    pub contours: Seq<Seq<PathEl>>,
    pub components: Seq<ComponentView>,
}

impl View for GlyphInstance {
    type V = DrawingView;

    open spec fn view(&self) -> DrawingView {
        DrawingView {
            width: self.width,
            height: self.height,
            vertical_origin: self.vertical_origin,
            contours: self.contours@.map_values(|c: Vec<PathEl>| c@),
            components: self.components@.map_values(|c: Component| c@),
        }
    }
}

/// How a glyph is drawn at each of some locations.
pub open spec fn drawings(sources: Seq<(Location, GlyphInstance)>) -> Seq<
    (Map<Tag, Real>, DrawingView),
> {
    sources.map_values(|s: (Location, GlyphInstance)| (s.0@, s.1@))
}

/// What a glyph is.
pub struct GlyphView {
    pub name: Seq<char>,
    pub emit_to_binary: bool,
    pub codepoints: Seq<u32>,
    pub sources: Seq<(Map<Tag, Real>, DrawingView)>,
}

impl View for Glyph {
    type V = GlyphView;

    open spec fn view(&self) -> GlyphView {
        GlyphView {
            name: self.name@,
            emit_to_binary: self.emit_to_binary,
            codepoints: self.codepoints@,
            sources: drawings(self.sources@),
        }
    }
}

/// What some glyphs are.
pub open spec fn glyph_views(glyphs: Seq<Glyph>) -> Seq<GlyphView> {
    glyphs.map_values(|g: Glyph| g@)
}

impl Clone for Component {
    fn clone(&self) -> (r: Component)
        ensures
            r.same_as(self),
    {
        Component {
            base: self.base.clone(),
            transform: self.transform,
            anchor: match &self.anchor {
                Some(anchor) => Some(anchor.clone()),
                None => None,
            },
        }
    }
}

impl GlyphInstance {
    /// Whether two instances are drawn alike.
    pub open spec fn same_as(&self, other: &GlyphInstance) -> bool {
        &&& self.width == other.width
        &&& self.height == other.height
        &&& self.vertical_origin == other.vertical_origin
        &&& self.contours@.len() == other.contours@.len()
        &&& forall|i: int|
            0 <= i < self.contours@.len() ==> (#[trigger] self.contours@[i])@
                == other.contours@[i]@
        &&& self.components@.len() == other.components@.len()
        &&& forall|i: int|
            0 <= i < self.components@.len() ==> (#[trigger] self.components@[i]).same_as(
                &other.components@[i],
            )
    }
}

impl Clone for GlyphInstance {
    fn clone(&self) -> (r: GlyphInstance)
        ensures
            r.same_as(self),
    {
        let mut contours: Vec<Vec<PathEl>> = Vec::new();
        let mut i: usize = 0;
        while i < self.contours.len()
            invariant
                i <= self.contours@.len(),
                contours@.len() == i,
                forall|k: int| 0 <= k < i ==> (#[trigger] contours@[k])@ == self.contours@[k]@,
            decreases self.contours.len() - i,
        {
            contours.push(lookup::copied(&self.contours[i]));
            i = i + 1;
        }
        let mut components: Vec<Component> = Vec::new();
        let mut c: usize = 0;
        while c < self.components.len()
            invariant
                c <= self.components@.len(),
                components@.len() == c,
                forall|k: int|
                    0 <= k < c ==> (#[trigger] components@[k]).same_as(&self.components@[k]),
            decreases self.components.len() - c,
        {
            components.push(self.components[c].clone());
            c = c + 1;
        }
        GlyphInstance {
            width: self.width,
            height: self.height,
            vertical_origin: self.vertical_origin,
            contours,
            components,
        }
    }
}

/// What two instances become when they exchange their drawings.
pub open spec fn swapped_geometry(a: GlyphInstance, b: GlyphInstance) -> (
    GlyphInstance,
    GlyphInstance,
) {
    (
        GlyphInstance {
            width: b.width,
            contours: b.contours,
            components: b.components,
            height: a.height,
            vertical_origin: a.vertical_origin,
        },
        GlyphInstance {
            width: a.width,
            contours: a.contours,
            components: a.components,
            height: b.height,
            vertical_origin: b.vertical_origin,
        },
    )
}

/// Exchange two glyphs' drawings: contours, components and the advance width,
/// and nothing else. The height and the vertical origin stay with the glyph
/// they were written for.
pub fn swap_geometry(a: &mut GlyphInstance, b: &mut GlyphInstance)
    ensures
        (*final(a), *final(b)) == swapped_geometry(*old(a), *old(b)),
{
    std::mem::swap(&mut a.width, &mut b.width);
    std::mem::swap(&mut a.contours, &mut b.contours);
    std::mem::swap(&mut a.components, &mut b.components);
}

/// Swapping two drawings twice leaves them as they were.
pub proof fn law_swapping_geometry_twice(a: GlyphInstance, b: GlyphInstance)
    ensures
        swapped_geometry(swapped_geometry(a, b).0, swapped_geometry(a, b).1) == (a, b),
{
}

/// A name after `old` and `new` trade places.
pub open spec fn swapped_name(name: Seq<char>, old_name: Seq<char>, new_name: Seq<char>) -> Seq<
    char,
> {
    if name == old_name {
        new_name
    } else if name == new_name {
        old_name
    } else {
        name
    }
}

fn swap_name(name: &String, old_name: &String, new_name: &String) -> (r: String)
    ensures
        r@ == swapped_name(name@, old_name@, new_name@),
{
    if *name == *old_name {
        new_name.clone()
    } else if *name == *new_name {
        old_name.clone()
    } else {
        name.clone()
    }
}

/// Rewrite `old_name` <-> `new_name` wherever `instance` uses either as a
/// component base. Returns whether it uses one.
pub fn swap_component_bases(instance: &mut GlyphInstance, old_name: &String, new_name: &String) -> (r:
    bool)
    ensures
        r == exists|i: int|
            0 <= i < old(instance).components@.len() && ((#[trigger] old(instance).components@[i]).base@ == old_name@ || old(instance).components@[i].base@
                == new_name@),
        final(instance).width == old(instance).width,
        final(instance).height == old(instance).height,
        final(instance).vertical_origin == old(instance).vertical_origin,
        final(instance).contours == old(instance).contours,
        final(instance).components@.len() == old(instance).components@.len(),
        forall|i: int|
            0 <= i < final(instance).components@.len() ==> (#[trigger] final(instance).components@[i]).base@ == swapped_name(
                old(instance).components@[i].base@,
                old_name@,
                new_name@,
            ) && final(instance).components@[i].transform == old(instance).components@[i].transform
                && final(instance).components@[i].anchor == old(instance).components@[i].anchor,
{
    let mut changed: bool = false;
    let mut i: usize = 0;
    while i < instance.components.len()
        invariant
            i <= instance.components@.len(),
            instance.components@.len() == old(instance).components@.len(),
            instance.width == old(instance).width,
            instance.height == old(instance).height,
            instance.vertical_origin == old(instance).vertical_origin,
            instance.contours == old(instance).contours,
            changed == exists|k: int|
                0 <= k < i && ((#[trigger] old(instance).components@[k]).base@ == old_name@ || old(instance).components@[k].base@ == new_name@),
            forall|k: int|
                i <= k < instance.components@.len() ==> #[trigger] instance.components@[k] == old(instance).components@[k],
            forall|k: int|
                0 <= k < i ==> (#[trigger] instance.components@[k]).base@ == swapped_name(
                    old(instance).components@[k].base@,
                    old_name@,
                    new_name@,
                ) && instance.components@[k].transform == old(instance).components@[k].transform
                    && instance.components@[k].anchor == old(instance).components@[k].anchor,
        decreases instance.components.len() - i,
    {
        assert(instance.components@[i as int] == old(instance).components@[i as int]);
        let hit: bool = instance.components[i].base == *old_name || instance.components[i].base
            == *new_name;
        if hit {
            let base: String = swap_name(&instance.components[i].base, old_name, new_name);
            instance.components[i].base = base;
            changed = true;
        }
        i = i + 1;
    }
    changed
}

/// Swapping two names twice leaves every name as it was.
pub proof fn law_swapping_names_twice(name: Seq<char>, old_name: Seq<char>, new_name: Seq<char>)
    ensures
        swapped_name(swapped_name(name, old_name, new_name), old_name, new_name) == name,
{
}

/// A group of glyphs that kern alike, on the first or the second side.
#[derive(Debug, PartialEq, Eq, PartialOrd, Ord, Hash)]
pub enum KernGroup {
    Side1(String),
    Side2(String),
}

/// One side of a kerning pair.
#[derive(Debug, PartialEq, Eq, PartialOrd, Ord, Hash)]
pub enum KernSide {
    Glyph(String),
    Group(KernGroup),
}

/// What a group is.
pub enum GroupView {
    Side1(Seq<char>),
    Side2(Seq<char>),
}

/// What a side of a pair is.
pub enum SideView {
    Glyph(Seq<char>),
    Group(GroupView),
}

impl View for KernGroup {
    type V = GroupView;

    open spec fn view(&self) -> GroupView {
        match *self {
            KernGroup::Side1(name) => GroupView::Side1(name@),
            KernGroup::Side2(name) => GroupView::Side2(name@),
        }
    }
}

impl View for KernSide {
    type V = SideView;

    open spec fn view(&self) -> SideView {
        match *self {
            KernSide::Glyph(name) => SideView::Glyph(name@),
            KernSide::Group(group) => SideView::Group(group@),
        }
    }
}

impl Clone for KernGroup {
    fn clone(&self) -> (r: KernGroup)
        ensures
            r@ == self@,
    {
        match self {
            KernGroup::Side1(name) => KernGroup::Side1(name.clone()),
            KernGroup::Side2(name) => KernGroup::Side2(name.clone()),
        }
    }
}

impl Clone for KernSide {
    fn clone(&self) -> (r: KernSide)
        ensures
            r@ == self@,
    {
        match self {
            KernSide::Glyph(name) => KernSide::Glyph(name.clone()),
            KernSide::Group(group) => KernSide::Group(group.clone()),
        }
    }
}

impl KernGroup {
    pub fn same(&self, other: &KernGroup) -> (r: bool)
        ensures
            r == (self@ == other@),
    {
        match (self, other) {
            (KernGroup::Side1(a), KernGroup::Side1(b)) => *a == *b,
            (KernGroup::Side2(a), KernGroup::Side2(b)) => *a == *b,
            _ => false,
        }
    }
}

impl KernSide {
    pub fn same(&self, other: &KernSide) -> (r: bool)
        ensures
            r == (self@ == other@),
    {
        match (self, other) {
            (KernSide::Glyph(a), KernSide::Glyph(b)) => *a == *b,
            (KernSide::Group(a), KernSide::Group(b)) => a.same(b),
            _ => false,
        }
    }
}

/// Two sides that kern with one another.
pub type KernPair = (KernSide, KernSide);

/// What a pair is.
pub type PairView = (SideView, SideView);

pub open spec fn pair_view(pair: KernPair) -> PairView {
    (pair.0@, pair.1@)
}

/// The kerning of one location.
#[derive(Debug, Clone)]
pub struct KerningInstance {
    pub location: Location,
    /// Each pair once.
    pub kerns: Vec<(KernPair, Real)>,
    /// The groups and their members, in ascending order of group.
    pub groups: Vec<(KernGroup, Vec<String>)>,
}

/// Pairs and their values.
pub open spec fn kern_view(kerns: Seq<(KernPair, Real)>) -> Seq<(PairView, Real)> {
    kerns.map_values(|k: (KernPair, Real)| (pair_view(k.0), k.1))
}

/// Groups and their members.
pub open spec fn group_view(groups: Seq<(KernGroup, Vec<String>)>) -> Seq<
    (GroupView, Seq<Seq<char>>),
> {
    groups.map_values(|g: (KernGroup, Vec<String>)| (g.0@, crate::text::texts(g.1@)))
}

/// Whether one group comes before another. Those of the first side come first,
/// and those of one side go by name.
pub open spec fn group_precedes(a: GroupView, b: GroupView) -> bool {
    match (a, b) {
        (GroupView::Side1(a), GroupView::Side1(b)) => crate::text::before(a, b),
        (GroupView::Side1(_), GroupView::Side2(_)) => true,
        (GroupView::Side2(_), GroupView::Side1(_)) => false,
        (GroupView::Side2(a), GroupView::Side2(b)) => crate::text::before(a, b),
    }
}

/// Groups are in ascending order.
pub open spec fn groups_ascend(groups: Seq<(GroupView, Seq<Seq<char>>)>) -> bool {
    forall|i: int, j: int|
        0 <= i < j < groups.len() ==> group_precedes(
            (#[trigger] groups[i]).0,
            (#[trigger] groups[j]).0,
        )
}

impl KerningInstance {
    /// Each pair is there once, and so is each group. Groups ascend.
    pub open spec fn is_keyed(&self) -> bool {
        &&& crate::lookup::keyed(kern_view(self.kerns@))
        &&& crate::lookup::keyed(group_view(self.groups@))
        &&& groups_ascend(group_view(self.groups@))
    }
}

/// A side after two glyphs trade places. Groups keep their names.
pub open spec fn swapped_side(side: SideView, old_name: Seq<char>, new_name: Seq<char>) -> SideView {
    match side {
        SideView::Glyph(name) => SideView::Glyph(swapped_name(name, old_name, new_name)),
        SideView::Group(group) => SideView::Group(group),
    }
}

/// A pair after two glyphs trade places.
pub open spec fn swapped_pair(pair: PairView, old_name: Seq<char>, new_name: Seq<char>) -> PairView {
    (swapped_side(pair.0, old_name, new_name), swapped_side(pair.1, old_name, new_name))
}

/// Members of a group after two glyphs trade places.
pub open spec fn swapped_members(
    members: Seq<Seq<char>>,
    old_name: Seq<char>,
    new_name: Seq<char>,
) -> Seq<Seq<char>> {
    members.map_values(|m: Seq<char>| swapped_name(m, old_name, new_name))
}

fn swap_side(side: &KernSide, old_name: &String, new_name: &String) -> (r: KernSide)
    ensures
        r@ == swapped_side(side@, old_name@, new_name@),
{
    match side {
        KernSide::Glyph(name) => KernSide::Glyph(swap_name(name, old_name, new_name)),
        KernSide::Group(group) => KernSide::Group(group.clone()),
    }
}

/// Exchange every mention of two glyphs in kerning: in pairs on either side,
/// and among the members of groups. Group names stay as they are.
pub fn swap_kerning(kerning: &mut KerningInstance, old_name: &String, new_name: &String)
    ensures
        final(kerning).location == old(kerning).location,
        kern_view(final(kerning).kerns@) == kern_view(old(kerning).kerns@).map_values(
            |k: (PairView, Real)| (swapped_pair(k.0, old_name@, new_name@), k.1),
        ),
        group_view(final(kerning).groups@) == group_view(old(kerning).groups@).map_values(
            |g: (GroupView, Seq<Seq<char>>)| (g.0, swapped_members(g.1, old_name@, new_name@)),
        ),
        old(kerning).is_keyed() ==> final(kerning).is_keyed(),
{
    let mut kerns: Vec<(KernPair, Real)> = Vec::new();
    let mut i: usize = 0;
    while i < kerning.kerns.len()
        invariant
            i <= kerning.kerns@.len(),
            *kerning == *old(kerning),
            kerns@.len() == i,
            forall|k: int|
                0 <= k < i ==> pair_view((#[trigger] kerns@[k]).0) == swapped_pair(
                    pair_view(kerning.kerns@[k].0),
                    old_name@,
                    new_name@,
                ) && kerns@[k].1 == kerning.kerns@[k].1,
        decreases kerning.kerns.len() - i,
    {
        let first: KernSide = swap_side(&kerning.kerns[i].0.0, old_name, new_name);
        let second: KernSide = swap_side(&kerning.kerns[i].0.1, old_name, new_name);
        kerns.push(((first, second), kerning.kerns[i].1));
        i = i + 1;
    }
    let mut groups: Vec<(KernGroup, Vec<String>)> = Vec::new();
    let mut g: usize = 0;
    while g < kerning.groups.len()
        invariant
            g <= kerning.groups@.len(),
            *kerning == *old(kerning),
            groups@.len() == g,
            forall|k: int|
                0 <= k < g ==> (#[trigger] groups@[k]).0@ == kerning.groups@[k].0@
                    && crate::text::texts(groups@[k].1@) == swapped_members(
                    crate::text::texts(kerning.groups@[k].1@),
                    old_name@,
                    new_name@,
                ),
        decreases kerning.groups.len() - g,
    {
        let mut members: Vec<String> = Vec::new();
        let mut m: usize = 0;
        while m < kerning.groups[g].1.len()
            invariant
                g < kerning.groups@.len(),
                m <= kerning.groups@[g as int].1@.len(),
                members@.len() == m,
                forall|k: int|
                    0 <= k < m ==> (#[trigger] members@[k])@ == swapped_name(
                        kerning.groups@[g as int].1@[k]@,
                        old_name@,
                        new_name@,
                    ),
            decreases kerning.groups@[g as int].1@.len() - m,
        {
            members.push(swap_name(&kerning.groups[g].1[m], old_name, new_name));
            m = m + 1;
        }
        assert(crate::text::texts(members@) =~= swapped_members(
            crate::text::texts(kerning.groups@[g as int].1@),
            old_name@,
            new_name@,
        ));
        groups.push((kerning.groups[g].0.clone(), members));
        g = g + 1;
    }
    proof {
        assert(kern_view(kerns@) =~= kern_view(old(kerning).kerns@).map_values(
            |k: (PairView, Real)| (swapped_pair(k.0, old_name@, new_name@), k.1),
        ));
        assert(group_view(groups@) =~= group_view(old(kerning).groups@).map_values(
            |g: (GroupView, Seq<Seq<char>>)| (g.0, swapped_members(g.1, old_name@, new_name@)),
        ));
    }
    proof {
        if old(kerning).is_keyed() {
            law_swaps_keep_kerning_keyed(
                kern_view(old(kerning).kerns@),
                group_view(old(kerning).groups@),
                old_name@,
                new_name@,
            );
        }
    }
    kerning.kerns = kerns;
    kerning.groups = groups;
}

/// A swap leaves every pair and every group there once, and groups in order.
pub proof fn law_swaps_keep_kerning_keyed(
    kerns: Seq<(PairView, Real)>,
    groups: Seq<(GroupView, Seq<Seq<char>>)>,
    old_name: Seq<char>,
    new_name: Seq<char>,
)
    requires
        crate::lookup::keyed(kerns),
        crate::lookup::keyed(groups),
        groups_ascend(groups),
    ensures
        crate::lookup::keyed(
            kerns.map_values(
                |k: (PairView, Real)| (swapped_pair(k.0, old_name, new_name), k.1),
            ),
        ),
        crate::lookup::keyed(
            groups.map_values(
                |g: (GroupView, Seq<Seq<char>>)| (g.0, swapped_members(g.1, old_name, new_name)),
            ),
        ),
        groups_ascend(
            groups.map_values(
                |g: (GroupView, Seq<Seq<char>>)| (g.0, swapped_members(g.1, old_name, new_name)),
            ),
        ),
{
    let after = kerns.map_values(
        |k: (PairView, Real)| (swapped_pair(k.0, old_name, new_name), k.1),
    );
    assert forall|i: int, j: int| 0 <= i < j < after.len() implies (#[trigger] after[i]).0 != (
    #[trigger] after[j]).0 by {
        if after[i].0 == after[j].0 {
            law_swapped_pairs_do_not_collide(kerns[i].0, kerns[j].0, old_name, new_name);
        }
    }
    let groups_now = groups.map_values(
        |g: (GroupView, Seq<Seq<char>>)| (g.0, swapped_members(g.1, old_name, new_name)),
    );
    assert forall|i: int, j: int| 0 <= i < j < groups_now.len() implies (
    #[trigger] groups_now[i]).0 != (#[trigger] groups_now[j]).0 by {
        assert(groups_now[i].0 == groups[i].0 && groups_now[j].0 == groups[j].0);
    }
    assert forall|i: int, j: int| 0 <= i < j < groups_now.len() implies group_precedes(
        (#[trigger] groups_now[i]).0,
        (#[trigger] groups_now[j]).0,
    ) by {
        assert(groups_now[i].0 == groups[i].0 && groups_now[j].0 == groups[j].0);
    }
}

/// Renaming pairs cannot make two of them collide.
pub proof fn law_swapped_pairs_do_not_collide(
    a: PairView,
    b: PairView,
    old_name: Seq<char>,
    new_name: Seq<char>,
)
    requires
        swapped_pair(a, old_name, new_name) == swapped_pair(b, old_name, new_name),
    ensures
        a == b,
{
    law_swapping_pairs_twice(a, old_name, new_name);
    law_swapping_pairs_twice(b, old_name, new_name);
}

/// Swapping two glyphs twice leaves every pair as it was.
pub proof fn law_swapping_pairs_twice(pair: PairView, old_name: Seq<char>, new_name: Seq<char>)
    ensures
        swapped_pair(swapped_pair(pair, old_name, new_name), old_name, new_name) == pair,
{
}

/// Swapping two glyphs twice leaves the members of every group as they were.
pub proof fn law_swapping_members_twice(
    members: Seq<Seq<char>>,
    old_name: Seq<char>,
    new_name: Seq<char>,
)
    ensures
        swapped_members(swapped_members(members, old_name, new_name), old_name, new_name)
            == members,
{
    assert(swapped_members(swapped_members(members, old_name, new_name), old_name, new_name)
        =~= members);
}

/// A drawing and its copy look alike in every way.
pub proof fn law_copies_are_drawn_alike(a: GlyphInstance, b: GlyphInstance)
    requires
        a.same_as(&b),
    ensures
        a@ == b@,
{
    assert(a@.contours =~= b@.contours);
    assert forall|i: int| 0 <= i < a.components@.len() implies a@.components[i]
        == b@.components[i] by {
        assert(a.components@[i].same_as(&b.components@[i]));
    }
    assert(a@.components =~= b@.components);
}

/// Two glyphs that are the same to look at have the same name and code points,
/// go into the font or don't, and are drawn alike at the same places: as wide,
/// as high, from the same origin, and with the same contours and components.
pub proof fn law_glyphs_that_look_the_same_agree_on_everything(a: Glyph, b: Glyph, i: int)
    requires
        a@ == b@,
        0 <= i < a.sources@.len(),
    ensures
        a.name@ == b.name@,
        a.emit_to_binary == b.emit_to_binary,
        a.codepoints@ == b.codepoints@,
        a.sources@.len() == b.sources@.len(),
        a.sources@[i].0@ == b.sources@[i].0@,
        a.sources@[i].1.width == b.sources@[i].1.width,
        a.sources@[i].1.height == b.sources@[i].1.height,
        a.sources@[i].1.vertical_origin == b.sources@[i].1.vertical_origin,
        a.sources@[i].1.contours@.len() == b.sources@[i].1.contours@.len(),
        a.sources@[i].1.components@.len() == b.sources@[i].1.components@.len(),
        forall|k: int|
            0 <= k < a.sources@[i].1.contours@.len() ==> (
            #[trigger] a.sources@[i].1.contours@[k])@ == b.sources@[i].1.contours@[k]@,
        forall|k: int|
            0 <= k < a.sources@[i].1.components@.len() ==> (
            #[trigger] a.sources@[i].1.components@[k]).base@ == b.sources@[i].1.components@[k].base@
                && a.sources@[i].1.components@[k].transform
                == b.sources@[i].1.components@[k].transform
                && a.sources@[i].1.components@[k].anchor == b.sources@[i].1.components@[k].anchor,
{
    assert(drawings(a.sources@) == drawings(b.sources@));
    assert(drawings(a.sources@).len() == a.sources@.len());
    assert(drawings(b.sources@).len() == b.sources@.len());
    assert(drawings(a.sources@)[i] == (a.sources@[i].0@, a.sources@[i].1@));
    assert(drawings(b.sources@)[i] == (b.sources@[i].0@, b.sources@[i].1@));
    let x = a.sources@[i].1;
    let y = b.sources@[i].1;
    assert(x@ == y@);
    assert(x@.contours.len() == y@.contours.len());
    assert(x@.components.len() == y@.components.len());
    assert forall|k: int| 0 <= k < x.contours@.len() implies (#[trigger] x.contours@[k])@
        == y.contours@[k]@ by {
        assert(x@.contours[k] == y@.contours[k]);
    }
    assert forall|k: int| 0 <= k < x.components@.len() implies (
    #[trigger] x.components@[k]).base@ == y.components@[k].base@ && x.components@[k].transform
        == y.components@[k].transform && x.components@[k].anchor == y.components@[k].anchor by {
        assert(x@.components[k] == y@.components[k]);
    }
}

/// Two drawings that are swapped exchange what is drawn and how wide it is, and
/// keep their heights and their vertical origins.
pub proof fn law_swapped_drawings_exchange_outlines_and_widths(a: GlyphInstance, b: GlyphInstance)
    ensures
        swapped_geometry(a, b).0.width == b.width,
        swapped_geometry(a, b).0.contours == b.contours,
        swapped_geometry(a, b).0.components == b.components,
        swapped_geometry(a, b).0.height == a.height,
        swapped_geometry(a, b).0.vertical_origin == a.vertical_origin,
        swapped_geometry(a, b).1.width == a.width,
        swapped_geometry(a, b).1.contours == a.contours,
        swapped_geometry(a, b).1.components == a.components,
        swapped_geometry(a, b).1.height == b.height,
        swapped_geometry(a, b).1.vertical_origin == b.vertical_origin,
{
}

/// Two names trade places, and every other name stays as it is.
pub proof fn law_swapped_names_trade_places(
    name: Seq<char>,
    old_name: Seq<char>,
    new_name: Seq<char>,
)
    ensures
        swapped_name(old_name, old_name, new_name) == new_name,
        swapped_name(new_name, old_name, new_name) == old_name,
        name != old_name && name != new_name ==> swapped_name(name, old_name, new_name) == name,
{
}

/// Glyphs trade places on either side of a pair and among the members of a
/// group. Groups stay where they are.
pub proof fn law_glyphs_trade_places_on_either_side(
    name: Seq<char>,
    group: GroupView,
    side: SideView,
    members: Seq<Seq<char>>,
    i: int,
    old_name: Seq<char>,
    new_name: Seq<char>,
)
    ensures
        swapped_pair((SideView::Glyph(name), side), old_name, new_name).0 == SideView::Glyph(
            swapped_name(name, old_name, new_name),
        ),
        swapped_pair((side, SideView::Glyph(name)), old_name, new_name).1 == SideView::Glyph(
            swapped_name(name, old_name, new_name),
        ),
        swapped_pair((SideView::Group(group), side), old_name, new_name).0 == SideView::Group(
            group,
        ),
        swapped_pair((side, SideView::Group(group)), old_name, new_name).1 == SideView::Group(
            group,
        ),
        swapped_members(members, old_name, new_name).len() == members.len(),
        0 <= i < members.len() ==> swapped_members(members, old_name, new_name)[i] == swapped_name(
            members[i],
            old_name,
            new_name,
        ),
{
}

/// Groups of the first side come before those of the second, and those of one
/// side go by name.
pub proof fn law_groups_are_in_order_of_side_and_name(a: Seq<char>, b: Seq<char>)
    ensures
        group_precedes(GroupView::Side1(a), GroupView::Side2(b)),
        !group_precedes(GroupView::Side2(a), GroupView::Side1(b)),
        group_precedes(GroupView::Side1(a), GroupView::Side1(b)) == crate::text::before(a, b),
        group_precedes(GroupView::Side2(a), GroupView::Side2(b)) == crate::text::before(a, b),
{
}

/// A glyph is never the same side as a group, nor a group of one side the same
/// as one of the other; glyphs and groups of one side are told apart by name.
pub proof fn law_sides_are_told_apart(a: String, b: String)
    ensures
        KernSide::Glyph(a)@ == KernSide::Glyph(b)@ <==> a@ == b@,
        KernSide::Group(KernGroup::Side1(a))@ == KernSide::Group(KernGroup::Side1(b))@ <==> a@
            == b@,
        KernSide::Group(KernGroup::Side2(a))@ == KernSide::Group(KernGroup::Side2(b))@ <==> a@
            == b@,
        KernSide::Group(KernGroup::Side1(a))@ != KernSide::Group(KernGroup::Side2(b))@,
        KernSide::Glyph(a)@ != KernSide::Group(KernGroup::Side1(b))@,
        KernSide::Glyph(a)@ != KernSide::Group(KernGroup::Side2(b))@,
{
}

} // verus!
