//! Axis tags, positions and locations.
//!
//! A real number appears in this library as its *rank*: an integer that orders
//! the doubles as they are ordered themselves, with 0 for zero (of either
//! sign). Ranks are compared, sorted and handed on; arithmetic on the numbers
//! they stand for is done by the caller.

use crate::lookup;
use crate::text;
use vstd::prelude::*;
use vstd::string::*;

verus! {

/// The rank of a real number.
pub type Real = i64;

/// A four-byte tag, most significant byte first.
#[derive(Debug, Clone, Copy, PartialEq, Eq, PartialOrd, Ord, Hash, Structural)]
pub struct Tag(pub u32);

/// A position on each of some axes.
///
/// The pairs are kept in ascending order of tag, each tag at most once.
#[derive(Debug, PartialEq, Eq, Hash)]
pub struct Location {
    coords: Vec<(Tag, Real)>,
}

/// The tags ascend strictly.
pub open spec fn ascending(coords: Seq<(Tag, Real)>) -> bool {
    forall|i: int, j: int| 0 <= i < j < coords.len() ==> coords[i].0.0 < coords[j].0.0
}

/// The positions that a list of pairs holds.
pub open spec fn as_positions(coords: Seq<(Tag, Real)>) -> Map<Tag, Real> {
    Map::new(
        |t: Tag| exists|i: int| 0 <= i < coords.len() && (#[trigger] coords[i]).0 == t,
        |t: Tag|
            {
                let i = choose|i: int| 0 <= i < coords.len() && (#[trigger] coords[i]).0 == t;
                coords[i].1
            },
    )
}

/// What an ascending list of pairs says of an axis is what the pair says.
pub proof fn lemma_position(coords: Seq<(Tag, Real)>, i: int)
    requires
        ascending(coords),
        0 <= i < coords.len(),
    ensures
        as_positions(coords).contains_key(coords[i].0),
        as_positions(coords)[coords[i].0] == coords[i].1,
{
    let t = coords[i].0;
    let k = choose|k: int| 0 <= k < coords.len() && (#[trigger] coords[k]).0 == t;
    assert(coords[i].0 == t);
    assert(k == i);
}

/// Two ascending lists hold the same positions only if they are the same list.
proof fn lemma_same_positions(a: Seq<(Tag, Real)>, b: Seq<(Tag, Real)>)
    requires
        ascending(a),
        ascending(b),
        as_positions(a) == as_positions(b),
    ensures
        a == b,
    decreases a.len() + b.len(),
{
    if a.len() == 0 && b.len() == 0 {
        assert(a =~= b);
    } else if a.len() == 0 {
        lemma_position(b, 0);
        assert(as_positions(a).contains_key(b[0].0));
    } else if b.len() == 0 {
        lemma_position(a, 0);
        assert(as_positions(b).contains_key(a[0].0));
    } else {
        let m = a.len() - 1;
        let n = b.len() - 1;
        lemma_position(a, m);
        lemma_position(b, n);
        let i = choose|i: int| 0 <= i < a.len() && (#[trigger] a[i]).0 == b[n].0;
        let j = choose|j: int| 0 <= j < b.len() && (#[trigger] b[j]).0 == a[m].0;
        assert(a[m].0 == b[n].0);
        let aa = a.drop_last();
        let bb = b.drop_last();
        assert forall|t: Tag| as_positions(aa).contains_key(t) == as_positions(bb).contains_key(
            t,
        ) by {
            if as_positions(aa).contains_key(t) {
                let k = choose|k: int| 0 <= k < aa.len() && (#[trigger] aa[k]).0 == t;
                lemma_position(a, k);
                assert(a[k].0 == t);
                assert(as_positions(b).contains_key(t));
                let l = choose|l: int| 0 <= l < b.len() && (#[trigger] b[l]).0 == t;
                assert(l != n);
                assert(bb[l].0 == t);
            }
            if as_positions(bb).contains_key(t) {
                let k = choose|k: int| 0 <= k < bb.len() && (#[trigger] bb[k]).0 == t;
                lemma_position(b, k);
                assert(b[k].0 == t);
                assert(as_positions(a).contains_key(t));
                let l = choose|l: int| 0 <= l < a.len() && (#[trigger] a[l]).0 == t;
                assert(l != m);
                assert(aa[l].0 == t);
            }
        }
        assert forall|t: Tag| #[trigger] as_positions(aa).contains_key(t) implies as_positions(
            aa,
        )[t] == as_positions(bb)[t] by {
            let k = choose|k: int| 0 <= k < aa.len() && (#[trigger] aa[k]).0 == t;
            assert(as_positions(bb).contains_key(t));
            let l = choose|l: int| 0 <= l < bb.len() && (#[trigger] bb[l]).0 == t;
            lemma_position(aa, k);
            lemma_position(bb, l);
            lemma_position(a, k);
            lemma_position(b, l);
        }
        assert(as_positions(aa) =~= as_positions(bb));
        lemma_same_positions(aa, bb);
        assert(a =~= aa.push(a[m]));
        assert(b =~= bb.push(b[n]));
    }
}

impl View for Location {
    type V = Map<Tag, Real>;

    closed spec fn view(&self) -> Map<Tag, Real> {
        as_positions(self.coords@)
    }
}

impl Location {
    #[verifier::type_invariant]
    spec fn ordered(self) -> bool {
        ascending(self.coords@)
    }

    /// The location that names no axis.
    pub fn new() -> (r: Location)
        ensures
            r@ == Map::<Tag, Real>::empty(),
    {
        let r = Location { coords: Vec::new() };
        assert(r@ =~= Map::<Tag, Real>::empty());
        r
    }

    /// The position on an axis, if the location names it.
    pub fn get(&self, tag: Tag) -> (r: Option<Real>)
        ensures
            r == (if self@.contains_key(tag) {
                Some(self@[tag])
            } else {
                None
            }),
    {
        proof {
            use_type_invariant(self);
        }
        let mut i: usize = 0;
        while i < self.coords.len()
            invariant
                i <= self.coords@.len(),
                ascending(self.coords@),
                forall|j: int| 0 <= j < i ==> (#[trigger] self.coords@[j]).0 != tag,
            decreases self.coords.len() - i,
        {
            if self.coords[i].0 == tag {
                proof {
                    lemma_position(self.coords@, i as int);
                }
                return Some(self.coords[i].1);
            }
            i = i + 1;
        }
        None
    }

    /// Set the position on an axis.
    pub fn insert(&mut self, tag: Tag, position: Real)
        ensures
            final(self)@ == old(self)@.insert(tag, position),
    {
        proof {
            use_type_invariant(&*self);
        }
        let ghost before = self.coords@;
        let mut out: Vec<(Tag, Real)> = Vec::new();
        let mut i: usize = 0;
        while i < self.coords.len() && self.coords[i].0.0 < tag.0
            invariant
                i <= self.coords@.len(),
                self.coords@ == before,
                *self == *old(self),
                out@ =~= before.take(i as int),
                forall|j: int| 0 <= j < i ==> (#[trigger] before[j]).0.0 < tag.0,
            decreases self.coords.len() - i,
        {
            out.push(self.coords[i]);
            i = i + 1;
        }
        out.push((tag, position));
        let at: usize = i;
        if i < self.coords.len() && self.coords[i].0 == tag {
            i = i + 1;
        }
        let from: usize = i;
        while i < self.coords.len()
            invariant
                from <= i <= self.coords@.len(),
                self.coords@ == before,
                *self == *old(self),
                out@ =~= before.take(at as int).push((tag, position)) + before.subrange(
                    from as int,
                    i as int,
                ),
                at <= from <= before.len(),
            decreases self.coords.len() - i,
        {
            out.push(self.coords[i]);
            i = i + 1;
        }
        proof {
            let after = out@;
            assert(ascending(after));
            assert forall|t: Tag| as_positions(after).contains_key(t) == as_positions(
                before,
            ).insert(tag, position).contains_key(t) by {
                if as_positions(after).contains_key(t) {
                    let k = choose|k: int| 0 <= k < after.len() && (#[trigger] after[k]).0 == t;
                    if k < at {
                        assert(before[k].0 == t);
                    } else if k > at {
                        assert(before[from + k - at - 1].0 == t);
                    }
                }
                if as_positions(before).contains_key(t) {
                    let k = choose|k: int| 0 <= k < before.len() && (#[trigger] before[k]).0 == t;
                    if k < at {
                        assert(after[k].0 == t);
                    } else if k >= from {
                        assert(after[k - from + at + 1].0 == t);
                    }
                }
                assert(after[at as int].0 == tag);
            }
            assert forall|t: Tag| as_positions(after).contains_key(t) implies as_positions(after)[t]
                == as_positions(before).insert(tag, position)[t] by {
                let k = choose|k: int| 0 <= k < after.len() && (#[trigger] after[k]).0 == t;
                lemma_position(after, k);
                if k < at {
                    lemma_position(before, k);
                } else if k > at {
                    lemma_position(before, from + k - at - 1);
                }
            }
            assert(as_positions(after) =~= as_positions(before).insert(tag, position));
        }
        *self = Location { coords: out };
    }

    /// Whether two locations name the same axes at the same positions.
    pub fn same(&self, other: &Location) -> (r: bool)
        ensures
            r == (self@ == other@),
    {
        proof {
            use_type_invariant(self);
            use_type_invariant(other);
            if self@ == other@ {
                lemma_same_positions(self.coords@, other.coords@);
            }
        }
        if self.coords.len() != other.coords.len() {
            return false;
        }
        let mut i: usize = 0;
        while i < self.coords.len()
            invariant
                i <= self.coords@.len(),
                self.coords@.len() == other.coords@.len(),
                self@ == other@ ==> self.coords@ == other.coords@,
                forall|j: int| 0 <= j < i ==> self.coords@[j] == other.coords@[j],
            decreases self.coords.len() - i,
        {
            if self.coords[i].0 != other.coords[i].0 || self.coords[i].1 != other.coords[i].1 {
                return false;
            }
            i = i + 1;
        }
        assert(self.coords@ =~= other.coords@);
        true
    }

    /// Whether every position is zero.
    pub fn is_default(&self) -> (r: bool)
        ensures
            r == forall|t: Tag| #[trigger] self@.contains_key(t) ==> self@[t] == 0,
    {
        proof {
            use_type_invariant(self);
        }
        let mut i: usize = 0;
        while i < self.coords.len()
            invariant
                i <= self.coords@.len(),
                ascending(self.coords@),
                forall|j: int| 0 <= j < i ==> (#[trigger] self.coords@[j]).1 == 0,
            decreases self.coords.len() - i,
        {
            if self.coords[i].1 != 0 {
                proof {
                    lemma_position(self.coords@, i as int);
                    let t = self.coords@[i as int].0;
                    assert(self@.contains_key(t) && self@[t] != 0);
                }
                return false;
            }
            i = i + 1;
        }
        proof {
            assert forall|t: Tag| #[trigger] self@.contains_key(t) implies self@[t] == 0 by {
                let k = choose|k: int|
                    0 <= k < self.coords@.len() && (#[trigger] self.coords@[k]).0 == t;
                lemma_position(self.coords@, k);
            }
        }
        true
    }

    /// The location's axes and positions, in ascending order of tag.
    pub fn pairs(&self) -> (r: Vec<(Tag, Real)>)
        ensures
            as_positions(r@) == self@,
            ascending(r@),
    {
        proof {
            use_type_invariant(self);
        }
        let mut out: Vec<(Tag, Real)> = Vec::new();
        let mut i: usize = 0;
        while i < self.coords.len()
            invariant
                i <= self.coords@.len(),
                out@ =~= self.coords@.take(i as int),
            decreases self.coords.len() - i,
        {
            out.push(self.coords[i]);
            i = i + 1;
        }
        assert(out@ =~= self.coords@);
        out
    }
}

impl Default for Location {
    fn default() -> (r: Location)
        ensures
            r@ == Map::<Tag, Real>::empty(),
    {
        Location::new()
    }
}

impl Clone for Location {
    fn clone(&self) -> (r: Location)
        ensures
            r@ == self@,
    {
        let coords: Vec<(Tag, Real)> = self.pairs();
        Location { coords }
    }
}

/// The positions that a list of pairs gives. Of two for one axis, the later
/// counts.
pub open spec fn collected(pairs: Seq<(Tag, Real)>) -> Map<Tag, Real>
    decreases pairs.len(),
{
    if pairs.len() == 0 {
        Map::empty()
    } else {
        collected(pairs.drop_last()).insert(pairs.last().0, pairs.last().1)
    }
}

impl Location {
    /// The location that these pairs give. Of two for one axis, the later
    /// counts.
    pub fn from_pairs(pairs: &Vec<(Tag, Real)>) -> (r: Location)
        ensures
            r@ == collected(pairs@),
    {
        let mut r = Location::new();
        let mut i: usize = 0;
        while i < pairs.len()
            invariant
                i <= pairs@.len(),
                r@ == collected(pairs@.take(i as int)),
            decreases pairs.len() - i,
        {
            assert(pairs@.take(i + 1).drop_last() =~= pairs@.take(i as int));
            r.insert(pairs[i].0, pairs[i].1);
            i = i + 1;
        }
        assert(pairs@.take(i as int) =~= pairs@);
        r
    }
}

/// A location restricted to exactly `axes`: other axes dropped, missing ones
/// at zero.
pub open spec fn fitted(at: Map<Tag, Real>, axes: Seq<Tag>) -> Map<Tag, Real> {
    Map::new(
        |t: Tag| axes.contains(t),
        |t: Tag|
            if at.contains_key(t) {
                at[t]
            } else {
                0
            },
    )
}

/// The positions of each location of a list.
pub open spec fn places(list: Seq<Location>) -> Seq<Map<Tag, Real>> {
    list.map_values(|l: Location| l@)
}

impl Location {
    /// The location restricted to exactly `axes`, the way a variation model
    /// keys its masters.
    pub fn fit_to_axes(&self, axes: &Vec<Tag>) -> (r: Location)
        ensures
            r@ == fitted(self@, axes@),
    {
        let mut r = Location::new();
        let mut i: usize = 0;
        while i < axes.len()
            invariant
                i <= axes@.len(),
                r@ =~= fitted(self@, axes@.take(i as int)),
            decreases axes.len() - i,
        {
            let position: Real = match self.get(axes[i]) {
                Some(p) => p,
                None => 0,
            };
            r.insert(axes[i], position);
            proof {
                let a = axes@.take(i as int);
                let b = axes@.take(i + 1);
                assert(b =~= a.push(axes@[i as int]));
                assert forall|t: Tag| b.contains(t) <==> a.contains(t) || t == axes@[i as int] by {
                    if a.contains(t) {
                        let k = choose|k: int| 0 <= k < a.len() && a[k] == t;
                        assert(b[k] == t);
                    }
                    assert(b[i as int] == axes@[i as int]);
                }
            }
            i = i + 1;
        }
        assert(axes@.take(axes@.len() as int) =~= axes@);
        r
    }

    /// The location restricted to `axes`, axes it does not name staying absent.
    pub fn subset_axes(&self, axes: &Vec<Tag>) -> (r: Location)
        ensures
            r@ == self@.restrict(axes@.to_set()),
    {
        let mut r = Location::new();
        let mut i: usize = 0;
        assert(r@ =~= self@.restrict(axes@.take(0).to_set()));
        while i < axes.len()
            invariant
                i <= axes@.len(),
                r@ =~= self@.restrict(axes@.take(i as int).to_set()),
            decreases axes.len() - i,
        {
            if let Some(p) = self.get(axes[i]) {
                r.insert(axes[i], p);
            }
            proof {
                let a = axes@.take(i as int);
                let b = axes@.take(i + 1);
                assert(b =~= a.push(axes@[i as int]));
                assert forall|t: Tag| b.contains(t) <==> a.contains(t) || t == axes@[i as int] by {
                    if a.contains(t) {
                        let k = choose|k: int| 0 <= k < a.len() && a[k] == t;
                        assert(b[k] == t);
                    }
                    assert(b[i as int] == axes@[i as int]);
                }
            }
            i = i + 1;
        }
        assert(axes@.take(axes@.len() as int) =~= axes@);
        r
    }
}

/// The index of the first location of `list` at `at`.
pub fn find_place(list: &Vec<Location>, at: &Location) -> (r: Option<usize>)
    ensures
        match r {
            Some(i) => i < list@.len() && list@[i as int]@ == at@ && forall|j: int|
                0 <= j < i ==> list@[j]@ != at@,
            None => forall|j: int| 0 <= j < list@.len() ==> list@[j]@ != at@,
        },
{
    let mut i: usize = 0;
    while i < list.len()
        invariant
            i <= list@.len(),
            forall|j: int| 0 <= j < i ==> list@[j]@ != at@,
        decreases list.len() - i,
    {
        if list[i].same(at) {
            return Some(i);
        }
        i = i + 1;
    }
    None
}

/// The index of the first entry of `list` at `at`.
pub open spec fn placed<V>(list: Seq<(Location, V)>, at: Map<Tag, Real>) -> Option<int>
    decreases list.len(),
{
    if list.len() == 0 {
        None
    } else {
        match placed(list.drop_last(), at) {
            Some(i) => Some(i),
            None => if list.last().0@ == at {
                Some(list.len() - 1)
            } else {
                None
            },
        }
    }
}

pub proof fn lemma_placed<V>(list: Seq<(Location, V)>, at: Map<Tag, Real>)
    ensures
        match placed(list, at) {
            Some(i) => 0 <= i < list.len() && list[i].0@ == at && forall|j: int|
                0 <= j < i ==> list[j].0@ != at,
            None => forall|j: int| 0 <= j < list.len() ==> list[j].0@ != at,
        },
    decreases list.len(),
{
    if list.len() > 0 {
        lemma_placed(list.drop_last(), at);
        match placed(list.drop_last(), at) {
            Some(i) => {
                assert forall|j: int| 0 <= j < i implies list[j].0@ != at by {
                    assert(list.drop_last()[j].0@ != at);
                }
            },
            None => {
                assert forall|j: int| 0 <= j < list.len() - 1 implies list[j].0@ != at by {
                    assert(list.drop_last()[j].0@ != at);
                }
            },
        }
    }
}

/// The index of the first entry of `list` at `at`.
pub fn find_placed<V>(list: &Vec<(Location, V)>, at: &Location) -> (r: Option<usize>)
    ensures
        placed(list@, at@) == (match r {
            Some(i) => Some(i as int),
            None => None,
        }),
        r is Some ==> r->0 < list@.len() && list@[r->0 as int].0@ == at@,
{
    proof {
        lemma_placed(list@, at@);
    }
    let mut i: usize = 0;
    while i < list.len()
        invariant
            i <= list@.len(),
            forall|j: int| 0 <= j < i ==> list@[j].0@ != at@,
            match placed(list@, at@) {
                Some(i) => 0 <= i < list@.len() && list@[i].0@ == at@ && forall|j: int|
                    0 <= j < i ==> list@[j].0@ != at@,
                None => forall|j: int| 0 <= j < list@.len() ==> list@[j].0@ != at@,
            },
        decreases list.len() - i,
    {
        if list[i].0.same(at) {
            return Some(i);
        }
        i = i + 1;
    }
    None
}

/// What is wrong with the spelling of a tag.
#[derive(Debug, Clone, Copy, PartialEq, Eq, Structural)]
pub enum TagProblem {
    /// Not between one and four bytes.
    InvalidLength(usize),
    /// A byte that may not stand where it stands.
    InvalidByte { pos: usize, byte: u8 },
    /// A byte after a space.
    ByteAfterSpace { pos: usize },
    /// Something else.
    Other,
}

/// Whether byte `i` may not stand where it stands: it is not printable ASCII,
/// or a space at the front, or something other than a space behind one.
pub open spec fn misplaced(bytes: Seq<u8>, i: int) -> bool {
    ||| bytes[i] < 0x20
    ||| bytes[i] > 0x7e
    ||| i == 0 && bytes[i] == 0x20
    ||| bytes[i] != 0x20 && exists|j: int| 0 <= j < i && #[trigger] bytes[j] == 0x20
}

/// The first misplaced byte from `i` on.
pub open spec fn first_misplaced(bytes: Seq<u8>, i: int) -> Option<int>
    decreases bytes.len() - i,
{
    if i >= bytes.len() {
        None
    } else if misplaced(bytes, i) {
        Some(i)
    } else {
        first_misplaced(bytes, i + 1)
    }
}

/// Byte `i` of the tag that `bytes` spell: short ones are padded with spaces.
pub open spec fn padded(bytes: Seq<u8>, i: int) -> int {
    if i < bytes.len() {
        bytes[i] as int
    } else {
        0x20
    }
}

/// The tag that `bytes` spell, or what is wrong with them.
pub open spec fn spelled(bytes: Seq<u8>) -> Result<Tag, TagProblem> {
    if bytes.len() == 0 || bytes.len() > 4 {
        Err(TagProblem::InvalidLength(bytes.len() as usize))
    } else {
        match first_misplaced(bytes, 0) {
            Some(i) => Err(TagProblem::InvalidByte { pos: i as usize, byte: bytes[i] }),
            None => Ok(
                Tag(
                    (padded(bytes, 0) * 0x1000000 + padded(bytes, 1) * 0x10000 + padded(bytes, 2)
                        * 0x100 + padded(bytes, 3)) as u32,
                ),
            ),
        }
    }
}

/// The tag that a string spells, or what is wrong with it.
pub open spec fn tag_spelled(raw: Seq<char>) -> Result<Tag, TagProblem> {
    spelled(vstd::utf8::encode_utf8(raw))
}

/// `font_types::Tag::new_checked`: one to four bytes of printable ASCII, no
/// space at the front, nothing but spaces behind a space. A shorter tag is
/// padded with spaces. The error names the first byte that breaks a rule.
#[verifier::external_body]
fn checked_tag(bytes: &[u8]) -> (r: Result<Tag, TagProblem>)
    ensures
        r == spelled(bytes@),
{
    match write_fonts::types::Tag::new_checked(bytes) {
        Ok(tag) => Ok(Tag(u32::from_be_bytes(tag.to_be_bytes()))),
        Err(write_fonts::types::InvalidTag::InvalidLength(n)) => Err(TagProblem::InvalidLength(n)),
        Err(write_fonts::types::InvalidTag::InvalidByte { pos, byte }) => Err(
            TagProblem::InvalidByte { pos, byte },
        ),
        Err(write_fonts::types::InvalidTag::ByteAfterSpace { pos }) => Err(
            TagProblem::ByteAfterSpace { pos },
        ),
        Err(_) => Err(TagProblem::Other),
    }
}

/// The digit of value `d` in hexadecimal, in capitals.
pub open spec fn hex_digit(d: int) -> char {
    if d < 10 {
        ('0' as u32 + d) as char
    } else {
        ('A' as u32 + d - 10) as char
    }
}

/// A byte in hexadecimal, in one digit if that is enough.
pub open spec fn hex_text(b: u8) -> Seq<char> {
    if b < 16 {
        seq![hex_digit(b as int)]
    } else {
        seq![hex_digit(b as int / 16), hex_digit(b as int % 16)]
    }
}

/// What is said of a problem.
pub open spec fn problem_text(problem: TagProblem) -> Seq<char> {
    match problem {
        TagProblem::InvalidLength(n) => "Invalid length ("@ + text::decimal(n as nat) + ")"@,
        TagProblem::InvalidByte { pos, byte } => "Invalid byte 0x"@ + hex_text(byte)
            + " at index "@ + text::decimal(pos as nat),
        TagProblem::ByteAfterSpace { .. } => "Non-space character after first space"@,
        TagProblem::Other => "Invalid tag"@,
    }
}

/// `font_types::InvalidTag`'s `Display`: which length is wrong, or which byte
/// and where, in capital hexadecimal digits and decimal ones. It has no words
/// for a problem of some other sort.
#[verifier::external_body]
fn invalid_tag_text(problem: TagProblem) -> (r: Option<String>)
    ensures
        r is None <==> problem is Other,
        r matches Some(said) ==> said@ == problem_text(problem),
{
    let problem = match problem {
        TagProblem::InvalidLength(n) => write_fonts::types::InvalidTag::InvalidLength(n),
        TagProblem::InvalidByte { pos, byte } => {
            write_fonts::types::InvalidTag::InvalidByte { pos, byte }
        },
        TagProblem::ByteAfterSpace { pos } => write_fonts::types::InvalidTag::ByteAfterSpace { pos },
        TagProblem::Other => return None,
    };
    Some(problem.to_string())
}

impl TagProblem {
    /// What is said of a problem.
    pub fn message(self) -> (r: String)
        ensures
            r@ == problem_text(self),
    {
        match invalid_tag_text(self) {
            Some(said) => said,
            None => "Invalid tag".to_string(),
        }
    }
}

/// How one byte of a tag reads: printable ASCII as it is, anything else in
/// hexadecimal between braces.
pub open spec fn byte_text(b: int) -> Seq<char> {
    if 0x20 <= b <= 0x7e {
        seq![b as char]
    } else {
        seq!['{', '0', 'x', hex_digit(b / 16), hex_digit(b % 16), '}']
    }
}

/// How a tag reads.
pub open spec fn tag_text(tag: Tag) -> Seq<char> {
    let v = tag.0 as int;
    byte_text(v / 0x1000000) + byte_text((v / 0x10000) % 0x100) + byte_text((v / 0x100) % 0x100)
        + byte_text(v % 0x100)
}

impl Tag {
    /// Parse a tag.
    pub fn parse(raw: &str) -> (r: Result<Tag, TagProblem>)
        ensures
            r == tag_spelled(raw@),
    {
        checked_tag(raw.as_bytes())
    }

    /// `font_types::Tag`'s `Display`: each byte as the character it is, or in
    /// hexadecimal between braces where it is not printable ASCII.
    #[verifier::external_body]
    pub(crate) fn text(self) -> (r: String)
        ensures
            r@ == tag_text(self),
    {
        write_fonts::types::Tag::from_u32(self.0).to_string()
    }
}

/// How positions on an axis are converted between spaces.
#[derive(Debug, PartialEq, Eq)]
pub enum CoordConverter {
    /// User and design space are the same.
    Unmapped { min: Real, default: Real, max: Real },
    /// Pairs of a user and a design position, and which of them is the default.
    Mapped { mappings: Vec<(Real, Real)>, default_idx: usize },
}

/// An axis of the design space. Positions are in user space.
#[derive(Debug, PartialEq, Eq)]
pub struct Axis {
    pub name: String,
    pub tag: Tag,
    pub min: Real,
    pub default: Real,
    pub max: Real,
    pub hidden: bool,
    pub converter: CoordConverter,
    /// What the axis is called in a user interface.
    pub ui_label_name: String,
}

impl CoordConverter {
    /// Whether two converters convert alike.
    pub open spec fn same_as(&self, other: &CoordConverter) -> bool {
        match (*self, *other) {
            (
                CoordConverter::Unmapped { min: a, default: b, max: c },
                CoordConverter::Unmapped { min: x, default: y, max: z },
            ) => a == x && b == y && c == z,
            (
                CoordConverter::Mapped { mappings: a, default_idx: b },
                CoordConverter::Mapped { mappings: x, default_idx: y },
            ) => a@ == x@ && b == y,
            _ => false,
        }
    }
}

impl Clone for CoordConverter {
    fn clone(&self) -> (r: CoordConverter)
        ensures
            r.same_as(self),
    {
        match self {
            CoordConverter::Unmapped { min, default, max } => CoordConverter::Unmapped {
                min: *min,
                default: *default,
                max: *max,
            },
            CoordConverter::Mapped { mappings, default_idx } => CoordConverter::Mapped {
                mappings: lookup::copied(mappings),
                default_idx: *default_idx,
            },
        }
    }
}

impl Clone for Axis {
    fn clone(&self) -> (r: Axis)
        ensures
            r.same_as(self),
    {
        Axis {
            name: self.name.clone(),
            tag: self.tag,
            min: self.min,
            default: self.default,
            max: self.max,
            hidden: self.hidden,
            converter: self.converter.clone(),
            ui_label_name: self.ui_label_name.clone(),
        }
    }
}

/// Whether two lists hold the same axes.
pub open spec fn same_axes(a: Seq<Axis>, b: Seq<Axis>) -> bool {
    a.len() == b.len() && forall|i: int| 0 <= i < a.len() ==> (#[trigger] a[i]).same_as(&b[i])
}

/// A copy of some axes.
pub fn copy_axes(axes: &Vec<Axis>) -> (r: Vec<Axis>)
    ensures
        same_axes(r@, axes@),
{
    let mut r: Vec<Axis> = Vec::new();
    let mut i: usize = 0;
    while i < axes.len()
        invariant
            i <= axes@.len(),
            r@.len() == i,
            forall|j: int| 0 <= j < i ==> (#[trigger] r@[j]).same_as(&axes@[j]),
        decreases axes.len() - i,
    {
        r.push(axes[i].clone());
        i = i + 1;
    }
    r
}

impl Axis {
    /// Whether two axes are alike.
    pub open spec fn same_as(&self, other: &Axis) -> bool {
        &&& self.name == other.name
        &&& self.tag == other.tag
        &&& self.min == other.min
        &&& self.default == other.default
        &&& self.max == other.max
        &&& self.hidden == other.hidden
        &&& self.converter.same_as(&other.converter)
        &&& self.ui_label_name == other.ui_label_name
    }

    /// Whether the axis cannot vary.
    pub open spec fn point(&self) -> bool {
        self.min == self.default && self.default == self.max
    }

    /// Whether the axis cannot vary.
    pub fn is_point(&self) -> (r: bool)
        ensures
            r == self.point(),
    {
        self.min == self.default && self.default == self.max
    }
}

/// The tags of some axes, in order.
pub open spec fn tags_of(axes: Seq<Axis>) -> Seq<Tag> {
    axes.map_values(|a: Axis| a.tag)
}

/// The tags of some axes, in order.
pub fn axis_order(axes: &Vec<Axis>) -> (r: Vec<Tag>)
    ensures
        r@ == tags_of(axes@),
{
    let mut r: Vec<Tag> = Vec::new();
    let mut i: usize = 0;
    while i < axes.len()
        invariant
            i <= axes@.len(),
            r@ =~= tags_of(axes@).take(i as int),
        decreases axes.len() - i,
    {
        r.push(axes[i].tag);
        i = i + 1;
    }
    assert(r@ =~= tags_of(axes@));
    r
}

/// The index of the first axis with a tag.
pub open spec fn axis_with(axes: Seq<Axis>, tag: Tag) -> Option<int>
    decreases axes.len(),
{
    if axes.len() == 0 {
        None
    } else {
        match axis_with(axes.drop_last(), tag) {
            Some(i) => Some(i),
            None => if axes.last().tag == tag {
                Some(axes.len() - 1)
            } else {
                None
            },
        }
    }
}

pub proof fn lemma_axis_with(axes: Seq<Axis>, tag: Tag)
    ensures
        match axis_with(axes, tag) {
            Some(i) => 0 <= i < axes.len() && axes[i].tag == tag && forall|j: int|
                0 <= j < i ==> (#[trigger] axes[j]).tag != tag,
            None => forall|j: int| 0 <= j < axes.len() ==> (#[trigger] axes[j]).tag != tag,
        },
    decreases axes.len(),
{
    if axes.len() > 0 {
        let rest = axes.drop_last();
        lemma_axis_with(rest, tag);
        match axis_with(rest, tag) {
            Some(i) => {
                assert forall|j: int| 0 <= j < i implies (#[trigger] axes[j]).tag != tag by {
                    assert(rest[j] == axes[j]);
                }
            },
            None => {
                assert forall|j: int| 0 <= j < axes.len() - 1 implies (#[trigger] axes[j]).tag
                    != tag by {
                    assert(rest[j] == axes[j]);
                }
            },
        }
    }
}

/// The index of the first axis with a tag.
pub fn find_axis(axes: &Vec<Axis>, tag: Tag) -> (r: Option<usize>)
    ensures
        axis_with(axes@, tag) == (match r {
            Some(i) => Some(i as int),
            None => None,
        }),
        r is Some ==> r->0 < axes@.len() && axes@[r->0 as int].tag == tag,
{
    proof {
        lemma_axis_with(axes@, tag);
    }
    let mut i: usize = 0;
    while i < axes.len()
        invariant
            i <= axes@.len(),
            forall|j: int| 0 <= j < i ==> (#[trigger] axes@[j]).tag != tag,
            match axis_with(axes@, tag) {
                Some(i) => 0 <= i < axes@.len() && axes@[i].tag == tag && forall|j: int|
                    0 <= j < i ==> (#[trigger] axes@[j]).tag != tag,
                None => forall|j: int| 0 <= j < axes@.len() ==> (#[trigger] axes@[j]).tag != tag,
            },
        decreases axes.len() - i,
    {
        if axes[i].tag == tag {
            return Some(i);
        }
        i = i + 1;
    }
    None
}

/// Of several pairs for one axis, the last says where a location is, and it is
/// on no axis that none of them names.
pub proof fn law_the_last_pair_for_an_axis_counts(pairs: Seq<(Tag, Real)>, k: int)
    ensures
        0 <= k < pairs.len() && (forall|i: int| k < i < pairs.len() ==> (#[trigger] pairs[i]).0
            != pairs[k].0) ==> collected(pairs).contains_key(pairs[k].0) && collected(
            pairs,
        )[pairs[k].0] == pairs[k].1,
        forall|t: Tag| #[trigger]
            collected(pairs).contains_key(t) <==> exists|i: int|
                0 <= i < pairs.len() && (#[trigger] pairs[i]).0 == t,
    decreases pairs.len(),
{
    if pairs.len() > 0 {
        let rest = pairs.drop_last();
        law_the_last_pair_for_an_axis_counts(rest, k);
        assert(forall|i: int| 0 <= i < rest.len() ==> rest[i] == pairs[i]);
        assert(pairs[pairs.len() - 1] == pairs.last());
        assert forall|t: Tag| #[trigger] collected(pairs).contains_key(t) <==> exists|i: int|
            0 <= i < pairs.len() && (#[trigger] pairs[i]).0 == t by {
            if collected(rest).contains_key(t) {
                let i = choose|i: int| 0 <= i < rest.len() && (#[trigger] rest[i]).0 == t;
                assert(pairs[i].0 == t);
            }
            if exists|i: int| 0 <= i < pairs.len() && (#[trigger] pairs[i]).0 == t {
                let i = choose|i: int| 0 <= i < pairs.len() && (#[trigger] pairs[i]).0 == t;
                if i < rest.len() {
                    assert(rest[i].0 == t);
                }
            }
        }
        if 0 <= k < rest.len() && (forall|i: int| k < i < pairs.len() ==> (#[trigger] pairs[i]).0
            != pairs[k].0) {
            assert(pairs[pairs.len() - 1].0 != pairs[k].0);
            assert forall|i: int| k < i < rest.len() implies (#[trigger] rest[i]).0 != rest[k].0 by {
                assert(pairs[i].0 != pairs[k].0);
            }
        }
    }
}

/// A location fitted to some axes is on exactly those, where it was, or at zero
/// on an axis that it was not on.
pub proof fn law_a_fitted_location_is_on_exactly_its_axes(
    at: Map<Tag, Real>,
    axes: Seq<Tag>,
    t: Tag,
)
    ensures
        fitted(at, axes).contains_key(t) <==> axes.contains(t),
        axes.contains(t) && at.contains_key(t) ==> fitted(at, axes)[t] == at[t],
        axes.contains(t) && !at.contains_key(t) ==> fitted(at, axes)[t] == 0,
        fitted(fitted(at, axes), axes) == fitted(at, axes),
{
    assert(fitted(fitted(at, axes), axes) =~= fitted(at, axes));
}

/// An axis is found by its tag: it is the first with that tag, and none is
/// found exactly if no axis has it.
pub proof fn law_axes_are_found_by_tag(axes: Seq<Axis>, tag: Tag, k: int)
    ensures
        axis_with(axes, tag) is None <==> forall|i: int|
            0 <= i < axes.len() ==> (#[trigger] axes[i]).tag != tag,
        0 <= k < axes.len() && axes[k].tag == tag && (forall|i: int|
            0 <= i < k ==> (#[trigger] axes[i]).tag != tag) ==> axis_with(axes, tag) == Some(k),
    decreases axes.len(),
{
    if axes.len() > 0 {
        let rest = axes.drop_last();
        law_axes_are_found_by_tag(rest, tag, k);
        assert forall|i: int| 0 <= i < rest.len() implies rest[i] == #[trigger] axes[i] by {}
        assert(axes[axes.len() - 1] == axes.last());
        if forall|i: int| 0 <= i < rest.len() ==> (#[trigger] rest[i]).tag != tag {
            assert forall|i: int| 0 <= i < axes.len() - 1 implies (#[trigger] axes[i]).tag != tag by {
                assert(rest[i] == axes[i]);
            }
        } else {
            let i = choose|i: int| 0 <= i < rest.len() && (#[trigger] rest[i]).tag == tag;
            assert(axes[i].tag == tag);
        }
        if 0 <= k < rest.len() {
            assert(rest[k] == axes[k]);
        }
    }
}

/// An axis cannot vary exactly if both its ends are its default.
pub proof fn law_an_axis_with_a_range_can_vary(axis: Axis)
    ensures
        axis.min < axis.default || axis.default < axis.max ==> !axis.point(),
        axis.min == axis.default && axis.max == axis.default ==> axis.point(),
{
}

/// Axes that are alike agree on everything there is to know of an axis.
pub proof fn law_axes_that_are_alike_agree_on_everything(a: Axis, b: Axis)
    requires
        a.same_as(&b),
    ensures
        a.name == b.name,
        a.tag == b.tag,
        a.min == b.min,
        a.default == b.default,
        a.max == b.max,
        a.hidden == b.hidden,
        a.ui_label_name == b.ui_label_name,
        match a.converter {
            CoordConverter::Unmapped { min, default, max } => b.converter
                == (CoordConverter::Unmapped { min, default, max }),
            CoordConverter::Mapped { mappings, default_idx } => b.converter matches CoordConverter::Mapped {
                mappings: others,
                default_idx: idx,
            } && others@ == mappings@ && idx == default_idx,
        },
{
}

/// Four printable bytes without a space spell the tag that they are, one behind
/// the other, and fewer are filled up with spaces.
pub proof fn law_tags_are_their_bytes(bytes: Seq<u8>)
    requires
        1 <= bytes.len() <= 4,
        forall|i: int| 0 <= i < bytes.len() ==> 0x21 <= #[trigger] bytes[i] <= 0x7e,
    ensures
        spelled(bytes) matches Ok(tag) && tag.0 == bytes[0] * 0x1000000 + (if bytes.len() > 1 {
            bytes[1] as int
        } else {
            0x20
        }) * 0x10000 + (if bytes.len() > 2 {
            bytes[2] as int
        } else {
            0x20
        }) * 0x100 + (if bytes.len() > 3 {
            bytes[3] as int
        } else {
            0x20
        }),
{
    lemma_printable_bytes_are_in_place(bytes, 0);
    assert(0x21 <= bytes[0] <= 0x7e);
    if bytes.len() > 1 {
        assert(0x21 <= bytes[1] <= 0x7e);
    }
    if bytes.len() > 2 {
        assert(0x21 <= bytes[2] <= 0x7e);
    }
    if bytes.len() > 3 {
        assert(0x21 <= bytes[3] <= 0x7e);
    }
}

proof fn lemma_printable_bytes_are_in_place(bytes: Seq<u8>, i: int)
    requires
        0 <= i <= bytes.len(),
        forall|k: int| 0 <= k < bytes.len() ==> 0x21 <= #[trigger] bytes[k] <= 0x7e,
    ensures
        first_misplaced(bytes, i) is None,
    decreases bytes.len() - i,
{
    if i < bytes.len() {
        assert(0x21 <= bytes[i] <= 0x7e);
        lemma_printable_bytes_are_in_place(bytes, i + 1);
    }
}

proof fn lemma_first_misplaced(bytes: Seq<u8>, from: int)
    requires
        0 <= from <= bytes.len(),
    ensures
        match first_misplaced(bytes, from) {
            Some(i) => from <= i < bytes.len() && misplaced(bytes, i) && forall|k: int|
                from <= k < i ==> !#[trigger] misplaced(bytes, k),
            None => forall|k: int| from <= k < bytes.len() ==> !#[trigger] misplaced(bytes, k),
        },
    decreases bytes.len() - from,
{
    if from < bytes.len() && !misplaced(bytes, from) {
        lemma_first_misplaced(bytes, from + 1);
    }
}

/// A tag has one to four bytes. They are printable, there is no space in front
/// and behind a space there are only spaces; the first byte that is against
/// this is what is wrong with the tag.
pub proof fn law_the_first_wrong_byte_of_a_tag_is_named(bytes: Seq<u8>, i: int, k: int)
    ensures
        bytes.len() == 0 ==> spelled(bytes) == Err::<Tag, TagProblem>(TagProblem::InvalidLength(0)),
        4 < bytes.len() <= usize::MAX ==> (spelled(bytes) matches Err(TagProblem::InvalidLength(n))
            && n == bytes.len()),
        1 <= bytes.len() <= 4 && spelled(bytes) is Err ==> (spelled(bytes) matches Err(
            TagProblem::InvalidByte { pos, byte },
        ) && pos < bytes.len() && byte == bytes[pos as int] && (byte < 0x20 || byte > 0x7e || pos
            == 0 && byte == 0x20 || byte != 0x20 && bytes.take(pos as int).contains(0x20u8)) && (0
            <= k < pos ==> 0x20 <= bytes[k] <= 0x7e && (bytes[k] == 0x20 || !bytes.take(k).contains(
            0x20u8,
        )) && bytes[0] != 0x20)),
        1 <= bytes.len() <= 4 && spelled(bytes) is Ok && 0 <= i < bytes.len() ==> 0x20 <= bytes[i]
            <= 0x7e && bytes[0] != 0x20 && (bytes[i] == 0x20 || !bytes.take(i).contains(0x20u8)),
{
    if 1 <= bytes.len() <= 4 {
        lemma_first_misplaced(bytes, 0);
        match first_misplaced(bytes, 0) {
            Some(pos) => {
                if exists|j: int| 0 <= j < pos && #[trigger] bytes[j] == 0x20 {
                    let j = choose|j: int| 0 <= j < pos && #[trigger] bytes[j] == 0x20;
                    assert(bytes.take(pos)[j] == 0x20u8);
                }
                if 0 <= k < pos {
                    assert(!misplaced(bytes, k));
                    assert(!misplaced(bytes, 0));
                    lemma_in_front(bytes, k);
                }
            },
            None => {
                if 0 <= i < bytes.len() {
                    assert(!misplaced(bytes, i));
                    assert(!misplaced(bytes, 0));
                    lemma_in_front(bytes, i);
                }
            },
        }
    }
}

proof fn lemma_in_front(bytes: Seq<u8>, k: int)
    requires
        0 <= k < bytes.len(),
    ensures
        bytes.take(k).contains(0x20u8) ==> exists|j: int| 0 <= j < k && #[trigger] bytes[j] == 0x20,
{
    if bytes.take(k).contains(0x20u8) {
        let j = choose|j: int| 0 <= j < bytes.take(k).len() && bytes.take(k)[j] == 0x20u8;
        assert(bytes[j] == 0x20);
    }
}

/// Digits are written in base sixteen, with capital letters behind the nine.
pub proof fn law_digits_go_on_with_capital_letters(d: int)
    requires
        0 <= d < 16,
    ensures
        hex_digit(d) == "0123456789ABCDEF"@[d],
{
    reveal_strlit("0123456789ABCDEF");
    if d < 10 {
        assert(hex_digit(d) as int == 0x30 + d);
    } else {
        assert(hex_digit(d) as int == 0x41 + d - 10);
    }
    assert("0123456789ABCDEF"@[d] as int == if d < 10 {
        0x30 + d
    } else {
        0x41 + d - 10
    }) by {
        if d == 0 {
        } else if d == 1 {
        } else if d == 2 {
        } else if d == 3 {
        } else if d == 4 {
        } else if d == 5 {
        } else if d == 6 {
        } else if d == 7 {
        } else if d == 8 {
        } else if d == 9 {
        } else if d == 10 {
        } else if d == 11 {
        } else if d == 12 {
        } else if d == 13 {
        } else if d == 14 {
        } else {
            assert(d == 15);
        }
    }
}

/// A byte of a tag is written as it is if it is printable, and else by its two
/// digits, which a byte alone is written by without a zero in front.
pub proof fn law_unprintable_bytes_are_written_by_number(b: u8)
    ensures
        0x20 <= b <= 0x7e ==> byte_text(b as int) == seq![b as char],
        b < 0x20 || b > 0x7e ==> byte_text(b as int) == seq![
            '{',
            '0',
            'x',
            "0123456789ABCDEF"@[b as int / 16],
            "0123456789ABCDEF"@[b as int % 16],
            '}',
        ],
        b < 16 ==> hex_text(b) == seq!["0123456789ABCDEF"@[b as int]],
        b >= 16 ==> hex_text(b) == seq![
            "0123456789ABCDEF"@[b as int / 16],
            "0123456789ABCDEF"@[b as int % 16],
        ],
{
    law_digits_go_on_with_capital_letters(b as int / 16);
    law_digits_go_on_with_capital_letters(b as int % 16);
}

/// What is wrong with a tag is told by its length, or by the byte and where it
/// is.
pub proof fn law_problems_of_tags_are_told(n: usize, pos: usize, byte: u8)
    ensures
        problem_text(TagProblem::InvalidLength(n)) == "Invalid length ("@ + text::decimal(n as nat)
            + ")"@,
        problem_text(TagProblem::InvalidByte { pos, byte }) == "Invalid byte 0x"@ + hex_text(byte)
            + " at index "@ + text::decimal(pos as nat),
        problem_text(TagProblem::Other) == "Invalid tag"@,
{
}

} // verus!
