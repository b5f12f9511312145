//! Glyph predicate tokens (`$[...]`): which glyphs of a font a predicate
//! selects, and in what order.

use crate::lookup;
use crate::static_metadata::GlyphPredicateAttrs;
use crate::text;
use vstd::prelude::*;

verus! {

/// Whether the whole of `text` matches the shell-style pattern `pat`: `*`
/// stands for any run of characters, `?` for exactly one, everything else for
/// itself.
pub open spec fn wild(text: Seq<char>, pat: Seq<char>) -> bool
    decreases text.len() + pat.len(),
{
    if pat.len() == 0 {
        text.len() == 0
    } else if pat[0] == '*' {
        wild(text, pat.skip(1)) || (text.len() > 0 && wild(text.skip(1), pat))
    } else {
        text.len() > 0 && (pat[0] == '?' || pat[0] == text[0]) && wild(text.skip(1), pat.skip(1))
    }
}

/// `wild` on what is left of `text` from `t` and of `pat` from `p`.
spec fn tail_wild(text: Seq<char>, t: int, pat: Seq<char>, p: int) -> bool {
    wild(text.skip(t), pat.skip(p))
}

/// Whether some tail that starts after `t` matches what `pat` holds from `p`.
spec fn later_tail_wild(text: Seq<char>, t: int, pat: Seq<char>, p: int) -> bool {
    exists|k: int| t < k <= text.len() && #[trigger] tail_wild(text, k, pat, p)
}

proof fn lemma_later_tail_step(text: Seq<char>, t: int, pat: Seq<char>, p: int)
    requires
        0 <= t < text.len(),
    ensures
        later_tail_wild(text, t, pat, p) <==> (tail_wild(text, t + 1, pat, p) || later_tail_wild(
            text,
            t + 1,
            pat,
            p,
        )),
{
    if later_tail_wild(text, t, pat, p) {
        let k = choose|k: int| t < k <= text.len() && #[trigger] tail_wild(text, k, pat, p);
        assert(k == t + 1 || t + 1 < k);
    }
}

proof fn lemma_tail_step(text: Seq<char>, t: int, pat: Seq<char>, p: int)
    requires
        0 <= t <= text.len(),
        0 <= p <= pat.len(),
    ensures
        p == pat.len() ==> (tail_wild(text, t, pat, p) <==> t == text.len()),
        p < pat.len() && pat[p] == '*' ==> (tail_wild(text, t, pat, p) <==> (tail_wild(
            text,
            t,
            pat,
            p + 1,
        ) || (t < text.len() && tail_wild(text, t + 1, pat, p)))),
        p < pat.len() && pat[p] != '*' ==> (tail_wild(text, t, pat, p) <==> (t < text.len() && (
        pat[p] == '?' || pat[p] == text[t]) && tail_wild(text, t + 1, pat, p + 1))),
{
    assert(p < pat.len() ==> pat.skip(p).skip(1) =~= pat.skip(p + 1));
    assert(t < text.len() ==> text.skip(t).skip(1) =~= text.skip(t + 1));
}

/// A pattern that starts with `*` and matches a tail matches every longer tail.
proof fn lemma_star_absorbs(text: Seq<char>, t: int, k: int, pat: Seq<char>, p: int)
    requires
        0 <= t <= k <= text.len(),
        0 <= p < pat.len(),
        pat[p] == '*',
        tail_wild(text, k, pat, p),
    ensures
        tail_wild(text, t, pat, p),
    decreases k - t,
{
    if t < k {
        lemma_tail_step(text, k - 1, pat, p);
        lemma_star_absorbs(text, t, k - 1, pat, p);
    }
}

/// A pattern that starts with `*` matches exactly when what follows the star
/// matches some tail.
proof fn lemma_star_is_some_tail(text: Seq<char>, t: int, pat: Seq<char>, p: int)
    requires
        0 <= t <= text.len(),
        0 <= p < pat.len(),
        pat[p] == '*',
    ensures
        tail_wild(text, t, pat, p) <==> (tail_wild(text, t, pat, p + 1) || later_tail_wild(
            text,
            t,
            pat,
            p + 1,
        )),
    decreases text.len() - t,
{
    lemma_tail_step(text, t, pat, p);
    if t < text.len() {
        lemma_later_tail_step(text, t, pat, p + 1);
        lemma_star_is_some_tail(text, t + 1, pat, p);
    }
}

/// A stretch of pattern without `*` takes up as many characters as it has.
proof fn lemma_literal_stretch(text: Seq<char>, t: int, pat: Seq<char>, p: int, q: int)
    requires
        0 <= t <= text.len(),
        0 <= p <= q <= pat.len(),
        forall|j: int| p <= j < q ==> pat[j] != '*',
        tail_wild(text, t, pat, p),
    ensures
        t + (q - p) <= text.len(),
        tail_wild(text, t + (q - p), pat, q),
    decreases q - p,
{
    if p < q {
        lemma_tail_step(text, t, pat, p);
        lemma_literal_stretch(text, t + 1, pat, p + 1, q);
    }
}

/// A pattern of nothing but stars matches the empty text, and no other does.
proof fn lemma_empty_text(pat: Seq<char>)
    ensures
        wild(Seq::<char>::empty(), pat) <==> forall|j: int| 0 <= j < pat.len() ==> pat[j] == '*',
    decreases pat.len(),
{
    if pat.len() > 0 {
        lemma_empty_text(pat.skip(1));
        if pat[0] == '*' && wild(Seq::<char>::empty(), pat.skip(1)) {
            assert forall|j: int| 0 <= j < pat.len() implies pat[j] == '*' by {
                if j > 0 {
                    assert(pat.skip(1)[j - 1] == '*');
                }
            }
        }
    }
}

/// Whether `text` matches the shell-style pattern `pat`, case-sensitively and
/// anchored at both ends. Matching is by `char`: `?` takes one code point.
pub fn fnmatch(text: &str, pat: &str) -> (r: bool)
    ensures
        r == wild(text@, pat@),
{
    let ts: Vec<char> = text::chars_of(text);
    let ps: Vec<char> = text::chars_of(pat);
    let ghost tt = text@;
    let ghost pp = pat@;
    let mut t: usize = 0;
    let mut p: usize = 0;
    // the most recent `*`, and how far the text it swallowed reaches
    let mut star: Option<usize> = None;
    let mut star_t: usize = 0;
    proof {
        assert(tt.skip(0) =~= tt);
        assert(pp.skip(0) =~= pp);
    }
    while t < ts.len()
        invariant
            tt == text@,
            pp == pat@,
            ts@ == tt,
            ps@ == pp,
            star_t <= t <= tt.len(),
            p <= pp.len(),
            star is Some ==> {
                &&& star->0 < p
                &&& pp[star->0 as int] == '*'
                &&& t - star_t == p - (star->0 + 1)
                &&& forall|j: int| star->0 < j < p ==> pp[j] != '*'
            },
            star is None ==> star_t == 0,
            wild(tt, pp) <==> (tail_wild(tt, t as int, pp, p as int) || (star is Some
                && later_tail_wild(tt, star_t as int, pp, star->0 + 1))),
        decreases
                tt.len() - star_t,
                match star {
                    Some(s) => pp.len() - s,
                    None => pp.len() + 1int,
                },
                tt.len() - t,
    {
        proof {
            lemma_tail_step(tt, t as int, pp, p as int);
        }
        if p < ps.len() && ps[p] == '*' {
            proof {
                lemma_star_is_some_tail(tt, t as int, pp, p as int);
                if star is Some {
                    let s = star->0 as int;
                    assert forall|k: int|
                        star_t < k <= tt.len() && #[trigger] tail_wild(
                            tt,
                            k,
                            pp,
                            s + 1,
                        ) implies tail_wild(tt, t as int, pp, p as int) by {
                        lemma_literal_stretch(tt, k, pp, s + 1, p as int);
                        lemma_star_absorbs(tt, t as int, k + (p - (s + 1)), pp, p as int);
                    }
                }
            }
            star = Some(p);
            star_t = t;
            p = p + 1;
        } else if p < ps.len() && (ps[p] == '?' || ps[p] == ts[t]) {
            t = t + 1;
            p = p + 1;
        } else if let Some(s) = star {
            proof {
                lemma_later_tail_step(tt, star_t as int, pp, s + 1);
            }
            p = s + 1;
            star_t = star_t + 1;
            t = star_t;
        } else {
            return false;
        }
    }
    proof {
        if star is Some {
            let s = star->0 as int;
            assert forall|k: int|
                star_t < k <= tt.len() && #[trigger] tail_wild(tt, k, pp, s + 1) implies false by {
                lemma_literal_stretch(tt, k, pp, s + 1, p as int);
            }
        }
        assert(tt.skip(t as int) =~= Seq::<char>::empty());
        lemma_empty_text(pp.skip(p as int));
    }
    let mut q: usize = p;
    while q < ps.len()
        invariant
            p <= q <= ps.len(),
            ps@ == pp,
            tt == text@,
            pp == pat@,
            forall|j: int| p <= j < q ==> pp[j] == '*',
            wild(tt, pp) <==> forall|j: int|
                0 <= j < pp.skip(p as int).len() ==> pp.skip(p as int)[j] == '*',
        decreases ps.len() - q,
    {
        if ps[q] != '*' {
            proof {
                assert(pp.skip(p as int)[q - p] != '*');
            }
            return false;
        }
        q = q + 1;
    }
    true
}

/// An attribute a source answers for; `name` is answered from the glyph itself.
#[derive(Debug, Clone, Copy, PartialEq, Eq, Structural)]
pub enum GlyphPredicateAttr {
    Category,
    SubCategory,
    Case,
    Unicode,
}

/// What an attribute token means. Attribute names are case-sensitive.
pub open spec fn attr_of_token(token: Seq<char>) -> Option<GlyphPredicateAttr> {
    if token == "category"@ {
        Some(GlyphPredicateAttr::Category)
    } else if token == "subCategory"@ {
        Some(GlyphPredicateAttr::SubCategory)
    } else if token == "case"@ {
        Some(GlyphPredicateAttr::Case)
    } else if token == "unicode"@ {
        Some(GlyphPredicateAttr::Unicode)
    } else {
        None
    }
}

impl GlyphPredicateAttr {
    /// The attribute a token names, if it names one the source answers for.
    pub fn from_token(token: &str) -> (r: Option<GlyphPredicateAttr>)
        ensures
            r == attr_of_token(token@),
    {
        if text::same(token, "category") {
            Some(GlyphPredicateAttr::Category)
        } else if text::same(token, "subCategory") {
            Some(GlyphPredicateAttr::SubCategory)
        } else if text::same(token, "case") {
            Some(GlyphPredicateAttr::Case)
        } else if text::same(token, "unicode") {
            Some(GlyphPredicateAttr::Unicode)
        } else {
            None
        }
    }
}

/// A comparison. `Matches` is grammatical, but no validated predicate holds it.
#[derive(Debug, Clone, Copy, PartialEq, Eq, Structural)]
pub enum PredicateOp {
    BeginsWith,
    EndsWith,
    Contains,
    Like,
    Eq,
    Ne,
    Lt,
    Le,
    Gt,
    Ge,
    Matches,
}

impl PredicateOp {
    /// One of `<`, `<=`, `>` and `>=`.
    pub open spec fn is_ordering(self) -> bool {
        self == PredicateOp::Lt || self == PredicateOp::Le || self == PredicateOp::Gt || self
            == PredicateOp::Ge
    }
}

/// The boolean connective between two clauses.
#[derive(Debug, Clone, Copy, PartialEq, Eq, Structural)]
pub enum Connective {
    And,
    Or,
}

/// `<attribute> <op> <value>`
#[derive(Debug, Clone)]
pub struct PredicateClause {
    pub attr: String,
    pub op: PredicateOp,
    pub value: String,
}

/// Clauses joined by connectives, as they are written between `$[` and `]`.
#[derive(Debug, Clone)]
pub struct GlyphsAppPredicate {
    pub clauses: Vec<PredicateClause>,
    pub connectives: Vec<Connective>,
}

impl PredicateClause {
    /// What validation leaves standing of a clause: a known attribute, no
    /// `matches`, and ordering on `name` alone.
    pub open spec fn valid(&self) -> bool {
        &&& self.attr@ == "name"@ || attr_of_token(self.attr@) is Some
        &&& self.op != PredicateOp::Matches
        &&& self.op.is_ordering() ==> self.attr@ == "name"@
    }
}

impl GlyphsAppPredicate {
    /// What validation leaves standing: at least one clause, every clause
    /// supported, and one kind of connective throughout.
    pub open spec fn valid(&self) -> bool {
        &&& self.clauses@.len() > 0
        &&& forall|i: int| 0 <= i < self.clauses@.len() ==> (#[trigger] self.clauses@[i]).valid()
        &&& forall|i: int, j: int|
            0 <= i < self.connectives@.len() && 0 <= j < self.connectives@.len()
                ==> self.connectives@[i] == self.connectives@[j]
    }

    /// How the clauses combine: as the connectives say, and as `And` without any.
    pub open spec fn connective(&self) -> Connective {
        if self.connectives@.len() == 0 {
            Connective::And
        } else {
            self.connectives@[0]
        }
    }
}

/// Whether `<got> <op> <value>` holds.
///
/// A missing value reads `None` to the operators that look into the text, and
/// is equal to no string at all.
pub open spec fn compares(op: PredicateOp, got: Option<Seq<char>>, value: Seq<char>) -> bool {
    let seen = match got {
        Some(s) => s,
        None => "None"@,
    };
    match op {
        PredicateOp::BeginsWith => text::begins(seen, value),
        PredicateOp::EndsWith => text::ends(seen, value),
        PredicateOp::Contains => text::holds(seen, value),
        PredicateOp::Like => wild(seen, value),
        PredicateOp::Eq => got == Some(value),
        PredicateOp::Ne => got != Some(value),
        PredicateOp::Lt => text::before(seen, value),
        PredicateOp::Le => text::before(seen, value) || seen == value,
        PredicateOp::Gt => !text::before(seen, value) && seen != value,
        PredicateOp::Ge => !text::before(seen, value),
        PredicateOp::Matches => false,
    }
}

/// The string behind an optional one.
pub open spec fn opt_text(s: Option<String>) -> Option<Seq<char>> {
    match s {
        Some(s) => Some(s@),
        None => None,
    }
}

/// What the table says of one attribute of one glyph.
pub open spec fn stored(
    attrs: Seq<(String, GlyphPredicateAttrs)>,
    name: Seq<char>,
    attr: GlyphPredicateAttr,
) -> Option<Seq<char>> {
    match lookup::named(attrs, name) {
        None => None,
        Some(entry) => match attr {
            GlyphPredicateAttr::Category => opt_text(entry.category),
            GlyphPredicateAttr::SubCategory => opt_text(entry.sub_category),
            GlyphPredicateAttr::Case => opt_text(entry.case),
            GlyphPredicateAttr::Unicode => opt_text(entry.unicode),
        },
    }
}

/// A glyph's value for the attribute that `token` names.
pub open spec fn attr_value(
    attrs: Seq<(String, GlyphPredicateAttrs)>,
    name: Seq<char>,
    token: Seq<char>,
) -> Option<Seq<char>> {
    if token == "name"@ {
        Some(name)
    } else {
        match attr_of_token(token) {
            Some(attr) => stored(attrs, name, attr),
            None => None,
        }
    }
}

/// Whether a glyph satisfies a clause.
pub open spec fn clause_matches(
    clause: PredicateClause,
    attrs: Seq<(String, GlyphPredicateAttrs)>,
    name: Seq<char>,
) -> bool {
    compares(clause.op, attr_value(attrs, name, clause.attr@), clause.value@)
}

/// The ids of the glyphs whose name satisfies `keep`, in order.
pub open spec fn select(glyphs: Seq<(u16, String)>, keep: spec_fn(Seq<char>) -> bool) -> Seq<u16>
    decreases glyphs.len(),
{
    if glyphs.len() == 0 {
        seq![]
    } else {
        let ids = select(glyphs.drop_last(), keep);
        if keep(glyphs.last().1@) {
            ids.push(glyphs.last().0)
        } else {
            ids
        }
    }
}

/// Every clause's matches in glyph order, one clause after the other.
pub open spec fn clause_by_clause(
    clauses: Seq<PredicateClause>,
    attrs: Seq<(String, GlyphPredicateAttrs)>,
    glyphs: Seq<(u16, String)>,
) -> Seq<u16>
    decreases clauses.len(),
{
    if clauses.len() == 0 {
        seq![]
    } else {
        clause_by_clause(clauses.drop_last(), attrs, glyphs) + select(
            glyphs,
            |name: Seq<char>| clause_matches(clauses.last(), attrs, name),
        )
    }
}

/// Whether a glyph satisfies every clause.
pub open spec fn all_match(
    clauses: Seq<PredicateClause>,
    attrs: Seq<(String, GlyphPredicateAttrs)>,
    name: Seq<char>,
) -> bool {
    forall|i: int| 0 <= i < clauses.len() ==> clause_matches(#[trigger] clauses[i], attrs, name)
}

/// `ids` with every repetition left out, so that each stands where it came first.
pub open spec fn first_seen(ids: Seq<u16>) -> Seq<u16>
    decreases ids.len(),
{
    if ids.len() == 0 {
        seq![]
    } else {
        let seen = first_seen(ids.drop_last());
        if seen.contains(ids.last()) {
            seen
        } else {
            seen.push(ids.last())
        }
    }
}

/// What a predicate selects: with `or`, all of the first clause's matches, then
/// the second clause's new ones, and so on; with `and`, the glyphs that satisfy
/// every clause, in glyph order. No id comes twice.
pub open spec fn selected(
    node: GlyphsAppPredicate,
    attrs: Seq<(String, GlyphPredicateAttrs)>,
    glyphs: Seq<(u16, String)>,
) -> Seq<u16> {
    match node.connective() {
        Connective::Or => first_seen(clause_by_clause(node.clauses@, attrs, glyphs)),
        Connective::And => first_seen(
            select(glyphs, |name: Seq<char>| all_match(node.clauses@, attrs, name)),
        ),
    }
}

/// Whether one glyph satisfies `<attribute> <op> <value>`, where `got` is the
/// glyph's value for the attribute.
pub fn op_matches(op: PredicateOp, got: Option<&str>, value: &str) -> (r: bool)
    requires
        op != PredicateOp::Matches,
        op.is_ordering() ==> got is Some,
    ensures
        r == compares(
            op,
            match got {
                Some(s) => Some(s@),
                None => None,
            },
            value@,
        ),
{
    let seen: &str = match got {
        Some(s) => s,
        None => "None",
    };
    match op {
        PredicateOp::BeginsWith => text::starts_with(seen, value),
        PredicateOp::EndsWith => text::ends_with(seen, value),
        PredicateOp::Contains => text::contains(seen, value),
        PredicateOp::Like => fnmatch(seen, value),
        PredicateOp::Eq => got.is_some() && text::same(seen, value),
        PredicateOp::Ne => !(got.is_some() && text::same(seen, value)),
        PredicateOp::Lt => text::precedes(seen, value),
        PredicateOp::Le => text::precedes(seen, value) || text::same(seen, value),
        PredicateOp::Gt => !text::precedes(seen, value) && !text::same(seen, value),
        PredicateOp::Ge => !text::precedes(seen, value),
        PredicateOp::Matches => false,
    }
}

/// Whether one glyph satisfies a clause. `name` is answered from the glyph, any
/// other attribute from the table.
fn glyph_satisfies(
    clause: &PredicateClause,
    attrs: &Vec<(String, GlyphPredicateAttrs)>,
    name: &String,
) -> (r: bool)
    requires
        clause.valid(),
    ensures
        r == clause_matches(*clause, attrs@, name@),
{
    let mut got: Option<&str> = None;
    if text::same(clause.attr.as_str(), "name") {
        got = Some(name.as_str());
    } else if let Some(i) = lookup::find_named(attrs, name) {
        let entry: &GlyphPredicateAttrs = &attrs[i].1;
        let value: &Option<String> = match GlyphPredicateAttr::from_token(clause.attr.as_str()) {
            Some(GlyphPredicateAttr::Category) => &entry.category,
            Some(GlyphPredicateAttr::SubCategory) => &entry.sub_category,
            Some(GlyphPredicateAttr::Case) => &entry.case,
            _ => &entry.unicode,
        };
        if let Some(s) = value {
            got = Some(s.as_str());
        }
    }
    op_matches(clause.op, got, clause.value.as_str())
}

/// Append `id` unless it is there already.
fn push_new(ids: &mut Vec<u16>, id: u16)
    ensures
        final(ids)@ == if old(ids)@.contains(id) {
            old(ids)@
        } else {
            old(ids)@.push(id)
        },
{
    let mut i: usize = 0;
    while i < ids.len()
        invariant
            ids@ == old(ids)@,
            i <= ids@.len(),
            forall|j: int| 0 <= j < i ==> ids@[j] != id,
        decreases ids.len() - i,
    {
        if ids[i] == id {
            return;
        }
        i = i + 1;
    }
    ids.push(id);
}

/// Whether a glyph satisfies every clause.
fn glyph_satisfies_all(
    clauses: &Vec<PredicateClause>,
    attrs: &Vec<(String, GlyphPredicateAttrs)>,
    name: &String,
) -> (r: bool)
    requires
        forall|i: int| 0 <= i < clauses@.len() ==> (#[trigger] clauses@[i]).valid(),
    ensures
        r == all_match(clauses@, attrs@, name@),
{
    let mut i: usize = 0;
    while i < clauses.len()
        invariant
            i <= clauses@.len(),
            forall|i: int| 0 <= i < clauses@.len() ==> (#[trigger] clauses@[i]).valid(),
            forall|j: int| 0 <= j < i ==> clause_matches(#[trigger] clauses@[j], attrs@, name@),
        decreases clauses.len() - i,
    {
        if !glyph_satisfies(&clauses[i], attrs, name) {
            return false;
        }
        i = i + 1;
    }
    true
}

/// Evaluate a validated predicate against a glyph set.
///
/// `glyphs` are `(id, name)` pairs in glyph order. `attrs` answers for every
/// attribute but `name`; a glyph it does not list has none of them set.
pub fn evaluate_predicate(
    node: &GlyphsAppPredicate,
    glyphs: &Vec<(u16, String)>,
    attrs: &Vec<(String, GlyphPredicateAttrs)>,
) -> (r: Vec<u16>)
    requires
        node.valid(),
    ensures
        r@ == selected(*node, attrs@, glyphs@),
{
    let connective: Connective = if node.connectives.len() == 0 {
        Connective::And
    } else {
        node.connectives[0]
    };
    let mut out: Vec<u16> = Vec::new();
    match connective {
        Connective::Or => {
            let mut c: usize = 0;
            while c < node.clauses.len()
                invariant
                    node.valid(),
                    c <= node.clauses@.len(),
                    out@ == first_seen(
                        clause_by_clause(node.clauses@.take(c as int), attrs@, glyphs@),
                    ),
                decreases node.clauses.len() - c,
            {
                let ghost earlier = clause_by_clause(node.clauses@.take(c as int), attrs@, glyphs@);
                let ghost keep = |name: Seq<char>|
                    clause_matches(node.clauses@[c as int], attrs@, name);
                let mut g: usize = 0;
                proof {
                    assert(earlier + select(glyphs@.take(0), keep) =~= earlier);
                }
                while g < glyphs.len()
                    invariant
                        node.valid(),
                        c < node.clauses@.len(),
                        g <= glyphs@.len(),
                        keep == (|name: Seq<char>|
                            clause_matches(node.clauses@[c as int], attrs@, name)),
                        out@ == first_seen(earlier + select(glyphs@.take(g as int), keep)),
                    decreases glyphs.len() - g,
                {
                    let ghost ids = select(glyphs@.take(g as int), keep);
                    proof {
                        assert(glyphs@.take(g + 1).drop_last() =~= glyphs@.take(g as int));
                    }
                    if glyph_satisfies(&node.clauses[c], attrs, &glyphs[g].1) {
                        proof {
                            let all = earlier + ids.push(glyphs@[g as int].0);
                            assert(all.drop_last() =~= earlier + ids);
                            assert(all.last() == glyphs@[g as int].0);
                        }
                        push_new(&mut out, glyphs[g].0);
                    }
                    g = g + 1;
                }
                proof {
                    let upto = node.clauses@.take(c + 1);
                    assert(upto.drop_last() =~= node.clauses@.take(c as int));
                    assert(glyphs@.take(glyphs@.len() as int) =~= glyphs@);
                    assert(keep =~= (|name: Seq<char>| clause_matches(upto.last(), attrs@, name)));
                }
                c = c + 1;
            }
            assert(node.clauses@.take(node.clauses@.len() as int) =~= node.clauses@);
        },
        Connective::And => {
            let ghost keep = |name: Seq<char>| all_match(node.clauses@, attrs@, name);
            let mut g: usize = 0;
            while g < glyphs.len()
                invariant
                    node.valid(),
                    g <= glyphs@.len(),
                    keep == (|name: Seq<char>| all_match(node.clauses@, attrs@, name)),
                    out@ == first_seen(select(glyphs@.take(g as int), keep)),
                decreases glyphs.len() - g,
            {
                let ghost ids = select(glyphs@.take(g as int), keep);
                proof {
                    assert(glyphs@.take(g + 1).drop_last() =~= glyphs@.take(g as int));
                }
                if glyph_satisfies_all(&node.clauses, attrs, &glyphs[g].1) {
                    proof {
                        assert(ids.push(glyphs@[g as int].0).drop_last() =~= ids);
                    }
                    push_new(&mut out, glyphs[g].0);
                }
                g = g + 1;
            }
            assert(glyphs@.take(glyphs@.len() as int) =~= glyphs@);
        },
    }
    out
}

/// A pattern without wildcards matches exactly the text it spells.
pub proof fn law_like_without_wildcards_is_equality(text: Seq<char>, pat: Seq<char>)
    requires
        forall|i: int| 0 <= i < pat.len() ==> pat[i] != '*' && pat[i] != '?',
    ensures
        wild(text, pat) <==> text == pat,
    decreases pat.len(),
{
    if pat.len() == 0 {
        assert(text.len() == 0 ==> text =~= pat);
    } else if text.len() > 0 {
        law_like_without_wildcards_is_equality(text.skip(1), pat.skip(1));
        if text.skip(1) == pat.skip(1) && text[0] == pat[0] {
            assert forall|i: int| 0 <= i < pat.len() implies text[i] == pat[i] by {
                if i > 0 {
                    assert(text.skip(1)[i - 1] == pat.skip(1)[i - 1]);
                }
            }
            assert(text.len() == pat.len());
            assert(text =~= pat);
        }
    }
}

/// `*` alone matches every text.
pub proof fn law_star_matches_everything(text: Seq<char>)
    ensures
        wild(text, seq!['*']),
    decreases text.len(),
{
    if text.len() > 0 {
        law_star_matches_everything(text.skip(1));
    } else {
        reveal_with_fuel(wild, 2);
        assert(seq!['*'].skip(1).len() == 0);
    }
}

proof fn lemma_first_seen_members(ids: Seq<u16>)
    ensures
        first_seen(ids).no_duplicates(),
        forall|id: u16| first_seen(ids).contains(id) <==> ids.contains(id),
    decreases ids.len(),
{
    if ids.len() > 0 {
        let rest = ids.drop_last();
        lemma_first_seen_members(rest);
        let seen = first_seen(rest);
        assert(ids =~= rest.push(ids.last()));
        assert forall|id: u16| first_seen(ids).contains(id) <==> ids.contains(id) by {
            if ids.contains(id) && id != ids.last() {
                let i = choose|i: int| 0 <= i < ids.len() && ids[i] == id;
                assert(rest[i] == id);
                assert(seen.contains(id) <==> rest.contains(id));
                let k = choose|k: int| 0 <= k < seen.len() && seen[k] == id;
                assert(first_seen(ids)[k] == id);
            }
            if id == ids.last() {
                assert(ids[ids.len() - 1] == id);
                assert(seen.push(id)[seen.len() as int] == id);
            }
            if first_seen(ids).contains(id) && id != ids.last() {
                let k = choose|k: int| 0 <= k < first_seen(ids).len() && first_seen(ids)[k] == id;
                assert(seen[k] == id);
                assert(seen.contains(id) <==> rest.contains(id));
                let i = choose|i: int| 0 <= i < rest.len() && rest[i] == id;
                assert(ids[i] == id);
            }
        }
    }
}

/// A predicate never selects a glyph twice.
pub proof fn law_selected_has_no_duplicates(
    node: GlyphsAppPredicate,
    attrs: Seq<(String, GlyphPredicateAttrs)>,
    glyphs: Seq<(u16, String)>,
)
    ensures
        selected(node, attrs, glyphs).no_duplicates(),
{
    lemma_first_seen_members(clause_by_clause(node.clauses@, attrs, glyphs));
    lemma_first_seen_members(
        select(glyphs, |name: Seq<char>| all_match(node.clauses@, attrs, name)),
    );
}

proof fn lemma_select_members(
    glyphs: Seq<(u16, String)>,
    keep: spec_fn(Seq<char>) -> bool,
    id: u16,
)
    ensures
        select(glyphs, keep).contains(id) <==> exists|g: int|
            0 <= g < glyphs.len() && (#[trigger] glyphs[g]).0 == id && keep(glyphs[g].1@),
    decreases glyphs.len(),
{
    if glyphs.len() > 0 {
        let rest = glyphs.drop_last();
        lemma_select_members(rest, keep, id);
        let ids = select(rest, keep);
        let last = glyphs.last();
        if exists|g: int|
            0 <= g < glyphs.len() && (#[trigger] glyphs[g]).0 == id && keep(glyphs[g].1@) {
            let g = choose|g: int|
                0 <= g < glyphs.len() && (#[trigger] glyphs[g]).0 == id && keep(glyphs[g].1@);
            if g < rest.len() {
                assert(rest[g].0 == id);
                let k = choose|k: int| 0 <= k < ids.len() && ids[k] == id;
                assert(select(glyphs, keep)[k] == id);
            } else {
                assert(select(glyphs, keep)[ids.len() as int] == id);
            }
        }
        if select(glyphs, keep).contains(id) {
            let k = choose|k: int|
                0 <= k < select(glyphs, keep).len() && select(glyphs, keep)[k] == id;
            if k < ids.len() {
                assert(ids[k] == id);
                let g = choose|g: int|
                    0 <= g < rest.len() && (#[trigger] rest[g]).0 == id && keep(rest[g].1@);
                assert(glyphs[g] == rest[g]);
            } else {
                assert(glyphs[glyphs.len() - 1] == last);
            }
        }
    }
}

/// An `and` chain, or a single clause, selects the glyphs that satisfy every clause.
pub proof fn law_and_selects_what_satisfies_every_clause(
    node: GlyphsAppPredicate,
    attrs: Seq<(String, GlyphPredicateAttrs)>,
    glyphs: Seq<(u16, String)>,
    id: u16,
)
    requires
        node.connective() == Connective::And,
    ensures
        selected(node, attrs, glyphs).contains(id) <==> exists|g: int|
            0 <= g < glyphs.len() && (#[trigger] glyphs[g]).0 == id && all_match(
                node.clauses@,
                attrs,
                glyphs[g].1@,
            ),
{
    let keep = |name: Seq<char>| all_match(node.clauses@, attrs, name);
    lemma_first_seen_members(select(glyphs, keep));
    lemma_select_members(glyphs, keep, id);
}

proof fn lemma_clause_by_clause_members(
    clauses: Seq<PredicateClause>,
    attrs: Seq<(String, GlyphPredicateAttrs)>,
    glyphs: Seq<(u16, String)>,
    id: u16,
)
    ensures
        clause_by_clause(clauses, attrs, glyphs).contains(id) <==> exists|c: int, g: int|
            0 <= c < clauses.len() && 0 <= g < glyphs.len() && glyphs[g].0 == id
                && #[trigger] clause_matches(clauses[c], attrs, glyphs[g].1@),
    decreases clauses.len(),
{
    if clauses.len() > 0 {
        let rest = clauses.drop_last();
        let keep = |name: Seq<char>| clause_matches(clauses.last(), attrs, name);
        lemma_clause_by_clause_members(rest, attrs, glyphs, id);
        lemma_select_members(glyphs, keep, id);
        let a = clause_by_clause(rest, attrs, glyphs);
        let b = select(glyphs, keep);
        if (a + b).contains(id) {
            let k = choose|k: int| 0 <= k < (a + b).len() && (a + b)[k] == id;
            if k < a.len() {
                assert(a[k] == id);
                let (c, g) = choose|c: int, g: int|
                    0 <= c < rest.len() && 0 <= g < glyphs.len() && glyphs[g].0 == id
                        && #[trigger] clause_matches(rest[c], attrs, glyphs[g].1@);
                assert(clause_matches(clauses[c], attrs, glyphs[g].1@));
            } else {
                assert(b[k - a.len()] == id);
                let g = choose|g: int|
                    0 <= g < glyphs.len() && (#[trigger] glyphs[g]).0 == id && keep(glyphs[g].1@);
                assert(clause_matches(clauses[clauses.len() - 1], attrs, glyphs[g].1@));
            }
        }
        if exists|c: int, g: int|
            0 <= c < clauses.len() && 0 <= g < glyphs.len() && glyphs[g].0 == id
                && #[trigger] clause_matches(clauses[c], attrs, glyphs[g].1@) {
            let (c, g) = choose|c: int, g: int|
                0 <= c < clauses.len() && 0 <= g < glyphs.len() && glyphs[g].0 == id
                    && #[trigger] clause_matches(clauses[c], attrs, glyphs[g].1@);
            if c < rest.len() {
                assert(clause_matches(rest[c], attrs, glyphs[g].1@));
                let k = choose|k: int| 0 <= k < a.len() && a[k] == id;
                assert((a + b)[k] == id);
            } else {
                assert(keep(glyphs[g].1@));
                let k = choose|k: int| 0 <= k < b.len() && b[k] == id;
                assert((a + b)[a.len() + k] == id);
            }
        }
    }
}

/// An `or` chain selects the glyphs that satisfy at least one clause.
pub proof fn law_or_selects_what_satisfies_some_clause(
    node: GlyphsAppPredicate,
    attrs: Seq<(String, GlyphPredicateAttrs)>,
    glyphs: Seq<(u16, String)>,
    id: u16,
)
    requires
        node.connective() == Connective::Or,
    ensures
        selected(node, attrs, glyphs).contains(id) <==> exists|c: int, g: int|
            0 <= c < node.clauses@.len() && 0 <= g < glyphs.len() && glyphs[g].0 == id
                && #[trigger] clause_matches(node.clauses@[c], attrs, glyphs[g].1@),
{
    lemma_first_seen_members(clause_by_clause(node.clauses@, attrs, glyphs));
    lemma_clause_by_clause_members(node.clauses@, attrs, glyphs, id);
}

proof fn lemma_first_seen_prefix(a: Seq<u16>, b: Seq<u16>)
    ensures
        first_seen(a).len() <= first_seen(a + b).len(),
        first_seen(a + b).take(first_seen(a).len() as int) == first_seen(a),
    decreases b.len(),
{
    if b.len() == 0 {
        assert(a + b =~= a);
    } else {
        lemma_first_seen_prefix(a, b.drop_last());
        assert((a + b).drop_last() =~= a + b.drop_last());
        assert(first_seen(a + b).take(first_seen(a).len() as int) =~= first_seen(
            a + b.drop_last(),
        ).take(first_seen(a).len() as int));
    }
}

/// With `or`, a later clause only appends: what the clauses before it select
/// stands first, in the order they select it.
pub proof fn law_or_keeps_clause_order(
    node: GlyphsAppPredicate,
    shorter: GlyphsAppPredicate,
    attrs: Seq<(String, GlyphPredicateAttrs)>,
    glyphs: Seq<(u16, String)>,
)
    requires
        node.connective() == Connective::Or,
        shorter.connective() == Connective::Or,
        node.clauses@.len() > 0,
        shorter.clauses@ == node.clauses@.drop_last(),
    ensures
        selected(shorter, attrs, glyphs).len() <= selected(node, attrs, glyphs).len(),
        selected(node, attrs, glyphs).take(selected(shorter, attrs, glyphs).len() as int)
            == selected(shorter, attrs, glyphs),
{
    lemma_first_seen_prefix(
        clause_by_clause(shorter.clauses@, attrs, glyphs),
        select(glyphs, |name: Seq<char>| clause_matches(node.clauses@.last(), attrs, name)),
    );
}

proof fn lemma_select_ascends(glyphs: Seq<(u16, String)>, keep: spec_fn(Seq<char>) -> bool)
    requires
        forall|i: int, j: int| 0 <= i < j < glyphs.len() ==> glyphs[i].0 < glyphs[j].0,
    ensures
        forall|i: int, j: int|
            0 <= i < j < select(glyphs, keep).len() ==> select(glyphs, keep)[i] < select(
                glyphs,
                keep,
            )[j],
        forall|i: int|
            0 <= i < select(glyphs, keep).len() ==> glyphs.len() > 0 && select(glyphs, keep)[i]
                <= glyphs.last().0,
        first_seen(select(glyphs, keep)) == select(glyphs, keep),
    decreases glyphs.len(),
{
    if glyphs.len() > 0 {
        let rest = glyphs.drop_last();
        lemma_select_ascends(rest, keep);
        let ids = select(rest, keep);
        assert forall|i: int| 0 <= i < ids.len() implies ids[i] < glyphs.last().0 by {
            assert(ids[i] <= rest.last().0);
            assert(rest.last() == glyphs[glyphs.len() - 2]);
        }
        if keep(glyphs.last().1@) {
            assert(select(glyphs, keep).drop_last() =~= ids);
        }
    }
}

/// An `and` chain over glyphs in glyph order selects them in glyph order.
pub proof fn law_and_keeps_glyph_order(
    node: GlyphsAppPredicate,
    attrs: Seq<(String, GlyphPredicateAttrs)>,
    glyphs: Seq<(u16, String)>,
)
    requires
        node.connective() == Connective::And,
        forall|i: int, j: int| 0 <= i < j < glyphs.len() ==> glyphs[i].0 < glyphs[j].0,
    ensures
        forall|i: int, j: int|
            0 <= i < j < selected(node, attrs, glyphs).len() ==> selected(node, attrs, glyphs)[i]
                < selected(node, attrs, glyphs)[j],
{
    lemma_select_ascends(glyphs, |name: Seq<char>| all_match(node.clauses@, attrs, name));
}

/// Matching goes character by character: `?` takes any one, a star takes any
/// stretch, and every other character of a pattern takes itself.
pub proof fn law_patterns_match_character_by_character(
    text: Seq<char>,
    pat: Seq<char>,
    c: char,
    d: char,
)
    ensures
        wild(Seq::empty(), Seq::empty()),
        !wild(seq![c] + text, Seq::empty()),
        wild(seq![c] + text, seq!['?'] + pat) <==> wild(text, pat),
        !wild(Seq::empty(), seq!['?'] + pat),
        d != '*' && d != '?' ==> (wild(seq![c] + text, seq![d] + pat) <==> c == d && wild(text, pat)),
        d != '*' ==> !wild(Seq::empty(), seq![d] + pat),
        wild(text, seq!['*'] + pat) <==> exists|k: int|
            0 <= k <= text.len() && #[trigger] wild(text.skip(k), pat),
{
    assert((seq![c] + text).skip(1) =~= text);
    assert((seq!['?'] + pat).skip(1) =~= pat);
    assert((seq![d] + pat).skip(1) =~= pat);
    let star = seq!['*'] + pat;
    assert(star.skip(1) =~= pat);
    assert(star.skip(0) =~= star);
    assert(text.skip(0) =~= text);
    lemma_star_is_some_tail(text, 0, star, 0);
    assert(tail_wild(text, 0, star, 0) == wild(text, star));
    assert(tail_wild(text, 0, star, 1) == wild(text, pat));
    if wild(text, star) {
        if tail_wild(text, 0, star, 1) {
            assert(wild(text.skip(0), pat));
        } else {
            let k = choose|k: int| 0 < k <= text.len() && #[trigger] tail_wild(text, k, star, 1);
            assert(wild(text.skip(k), pat));
        }
    }
    if exists|k: int| 0 <= k <= text.len() && #[trigger] wild(text.skip(k), pat) {
        let k = choose|k: int| 0 <= k <= text.len() && #[trigger] wild(text.skip(k), pat);
        assert(tail_wild(text, k, star, 1));
        assert(k == 0 || later_tail_wild(text, 0, star, 1));
    }
}

/// What the operators on texts ask of a value that a glyph has: what it begins
/// or ends with, what it holds, and what it looks like.
#[verifier::spinoff_prover]
pub proof fn law_operators_on_texts_ask_what_they_say(got: Seq<char>, value: Seq<char>)
    ensures
        compares(PredicateOp::BeginsWith, Some(got), value) <==> exists|rest: Seq<char>|
            got == #[trigger] (value + rest),
        compares(PredicateOp::EndsWith, Some(got), value) <==> exists|rest: Seq<char>|
            got == #[trigger] (rest + value),
        compares(PredicateOp::Contains, Some(got), value) <==> exists|front: Seq<char>, back: Seq<char>|
            got == #[trigger] (front + value + back),
        compares(PredicateOp::Like, Some(got), value) <==> wild(got, value),
{
    text::law_parts_of_strings(got, value);
}

/// What the operators on order ask of a value that a glyph has: what it is, and
/// what it comes before or after.
pub proof fn law_operators_on_order_ask_what_they_say(got: Seq<char>, value: Seq<char>)
    ensures
        compares(PredicateOp::Eq, Some(got), value) <==> got == value,
        compares(PredicateOp::Ne, Some(got), value) <==> got != value,
        compares(PredicateOp::Lt, Some(got), value) <==> text::before(got, value),
        compares(PredicateOp::Gt, Some(got), value) <==> text::before(value, got),
        compares(PredicateOp::Le, Some(got), value) <==> got == value || text::before(got, value),
        compares(PredicateOp::Ge, Some(got), value) <==> got == value || text::before(value, got),
{
    text::law_of_two_strings_one_comes_first(got, value);
}

/// A value that a glyph does not have is equal to nothing, and reads `None` to
/// the operators that look into a text.
pub proof fn law_missing_values_read_none(value: Seq<char>)
    ensures
        !compares(PredicateOp::Eq, None, value),
        compares(PredicateOp::Ne, None, value),
        compares(PredicateOp::BeginsWith, None, value) <==> compares(
            PredicateOp::BeginsWith,
            Some("None"@),
            value,
        ),
        compares(PredicateOp::EndsWith, None, value) <==> compares(
            PredicateOp::EndsWith,
            Some("None"@),
            value,
        ),
        compares(PredicateOp::Contains, None, value) <==> compares(
            PredicateOp::Contains,
            Some("None"@),
            value,
        ),
        compares(PredicateOp::Like, None, value) <==> compares(
            PredicateOp::Like,
            Some("None"@),
            value,
        ),
{
}

/// A clause asks about the field of its own name in the entry of a glyph, and
/// about no other; `name` is asked of the glyph itself. A glyph without an
/// entry has none of the fields.
pub proof fn law_attributes_are_answered_from_the_field_of_their_name(
    clause: PredicateClause,
    attrs: Seq<(String, GlyphPredicateAttrs)>,
    name: Seq<char>,
)
    requires
        forall|i: int, j: int| 0 <= i < j < attrs.len() ==> attrs[i].0@ != attrs[j].0@,
    ensures
        clause.attr@ == "name"@ ==> (clause_matches(clause, attrs, name) <==> compares(
            clause.op,
            Some(name),
            clause.value@,
        )),
        forall|e: int|
            0 <= e < attrs.len() && (#[trigger] attrs[e]).0@ == name ==> {
                let entry = attrs[e].1;
                let asks = |field: Option<String>|
                    compares(
                        clause.op,
                        match field {
                            Some(s) => Some(s@),
                            None => None,
                        },
                        clause.value@,
                    );
                &&& clause.attr@ == "category"@ ==> clause_matches(clause, attrs, name) == asks(
                    entry.category,
                )
                &&& clause.attr@ == "subCategory"@ ==> clause_matches(clause, attrs, name) == asks(
                    entry.sub_category,
                )
                &&& clause.attr@ == "case"@ ==> clause_matches(clause, attrs, name) == asks(
                    entry.case,
                )
                &&& clause.attr@ == "unicode"@ ==> clause_matches(clause, attrs, name) == asks(
                    entry.unicode,
                )
            },
        clause.attr@ != "name"@ && (forall|e: int|
            0 <= e < attrs.len() ==> (#[trigger] attrs[e]).0@ != name) ==> (clause_matches(
            clause,
            attrs,
            name,
        ) <==> compares(clause.op, None, clause.value@)),
{
    reveal_strlit("name");
    reveal_strlit("category");
    reveal_strlit("subCategory");
    reveal_strlit("case");
    reveal_strlit("unicode");
    assert("name"@[0] != "category"@[0] && "name"@[0] != "subCategory"@[0] && "name"@[0] != "case"@[0]
        && "name"@[0] != "unicode"@[0]);
    assert("category"@[0] != "subCategory"@[0] && "category"@.len() != "case"@.len() && "category"@[0]
        != "unicode"@[0]);
    assert("subCategory"@[0] != "case"@[0] && "subCategory"@[0] != "unicode"@[0] && "case"@[0]
        != "unicode"@[0]);
    assert forall|e: int| 0 <= e < attrs.len() && (#[trigger] attrs[e]).0@ == name implies
        lookup::named(attrs, name) == Some(attrs[e].1) by {
        lookup::lemma_named_first(attrs, name, e);
    }
    if forall|e: int| 0 <= e < attrs.len() ==> (#[trigger] attrs[e]).0@ != name {
        lookup::lemma_named_any(attrs, name);
    }
}

/// A lone clause that asks whether an attribute is a value selects exactly the
/// glyphs whose entry has that value in the field of that name, whatever the
/// other fields hold.
pub proof fn law_equality_selects_by_the_field_of_its_name(
    node: GlyphsAppPredicate,
    attrs: Seq<(String, GlyphPredicateAttrs)>,
    glyphs: Seq<(u16, String)>,
    g: int,
)
    requires
        node.clauses@.len() == 1,
        node.connectives@.len() == 0,
        node.clauses@[0].op is Eq,
        forall|i: int, j: int| 0 <= i < j < attrs.len() ==> attrs[i].0@ != attrs[j].0@,
        forall|i: int, j: int| 0 <= i < j < glyphs.len() ==> glyphs[i].0 != glyphs[j].0,
        0 <= g < glyphs.len(),
        exists|e: int| 0 <= e < attrs.len() && (#[trigger] attrs[e]).0@ == glyphs[g].1@,
    ensures
        ({
            let is_in = selected(node, attrs, glyphs).contains(glyphs[g].0);
            let attr = node.clauses@[0].attr@;
            let value = node.clauses@[0].value@;
            forall|e: int|
                0 <= e < attrs.len() && (#[trigger] attrs[e]).0@ == glyphs[g].1@ ==> {
                    &&& attr == "category"@ ==> is_in == (attrs[e].1.category matches Some(s) && s@
                        == value)
                    &&& attr == "subCategory"@ ==> is_in == (attrs[e].1.sub_category matches Some(s)
                        && s@ == value)
                    &&& attr == "case"@ ==> is_in == (attrs[e].1.case matches Some(s) && s@ == value)
                    &&& attr == "unicode"@ ==> is_in == (attrs[e].1.unicode matches Some(s) && s@
                        == value)
                }
        }),
{
    let clause = node.clauses@[0];
    let name = glyphs[g].1@;
    let id = glyphs[g].0;
    law_attributes_are_answered_from_the_field_of_their_name(clause, attrs, name);
    law_and_selects_what_satisfies_every_clause(node, attrs, glyphs, id);
    assert(all_match(node.clauses@, attrs, name) == clause_matches(clause, attrs, name)) by {
        if clause_matches(clause, attrs, name) {
            assert forall|i: int| 0 <= i < node.clauses@.len() implies clause_matches(
                #[trigger] node.clauses@[i],
                attrs,
                name,
            ) by {
                assert(i == 0);
            }
        }
    }
    assert(selected(node, attrs, glyphs).contains(id) == clause_matches(clause, attrs, name)) by {
        if selected(node, attrs, glyphs).contains(id) {
            let k = choose|k: int|
                0 <= k < glyphs.len() && (#[trigger] glyphs[k]).0 == id && all_match(
                    node.clauses@,
                    attrs,
                    glyphs[k].1@,
                );
            assert(k == g) by {
                if k < g {
                    assert(glyphs[k].0 != glyphs[g].0);
                } else if g < k {
                    assert(glyphs[g].0 != glyphs[k].0);
                }
            }
        }
    }
}

/// A predicate without connectives, or with `and`, is an `and` chain, and one
/// with `or` an `or` chain.
pub proof fn law_clauses_are_joined_as_written(node: GlyphsAppPredicate)
    ensures
        node.connectives@.len() == 0 ==> node.connective() is And,
        node.connectives@.len() > 0 && node.connectives@[0] is And ==> node.connective() is And,
        node.connectives@.len() > 0 && node.connectives@[0] is Or ==> node.connective() is Or,
{
}

/// Every clause on a known attribute is valid, but for `matches`, and but for
/// the four orderings on anything other than the name.
pub proof fn law_what_makes_a_clause_valid(clause: PredicateClause)
    ensures
        clause.valid() <==> ({
            let known = clause.attr@ == "name"@ || clause.attr@ == "category"@ || clause.attr@
                == "subCategory"@ || clause.attr@ == "case"@ || clause.attr@ == "unicode"@;
            let orders = clause.op is Lt || clause.op is Le || clause.op is Gt || clause.op is Ge;
            known && !(clause.op is Matches) && (orders ==> clause.attr@ == "name"@)
        }),
{
}

/// What an `and` chain, or an `or` chain of one clause, makes of one more glyph
/// behind all others: it is appended if it satisfies the chain and is not there
/// already, and nothing else changes.
pub proof fn law_one_more_glyph_is_appended_or_not(
    node: GlyphsAppPredicate,
    attrs: Seq<(String, GlyphPredicateAttrs)>,
    glyphs: Seq<(u16, String)>,
    id: u16,
    name: String,
)
    requires
        node.connective() is And,
    ensures
        ({
            let so_far = selected(node, attrs, glyphs);
            let satisfies = forall|i: int|
                0 <= i < node.clauses@.len() ==> clause_matches(
                    #[trigger] node.clauses@[i],
                    attrs,
                    name@,
                );
            selected(node, attrs, glyphs.push((id, name))) == if satisfies && !so_far.contains(
                id,
            ) {
                so_far.push(id)
            } else {
                so_far
            }
        }),
{
    let keep = |name: Seq<char>| all_match(node.clauses@, attrs, name);
    let all = glyphs.push((id, name));
    assert(all.drop_last() =~= glyphs);
    if keep(name@) {
        assert(select(all, keep).drop_last() =~= select(glyphs, keep));
    }
}

/// The glyphs that the last clause of an `or` chain adds come behind all
/// others, and in glyph order.
pub proof fn law_or_adds_in_glyph_order(
    node: GlyphsAppPredicate,
    shorter: GlyphsAppPredicate,
    attrs: Seq<(String, GlyphPredicateAttrs)>,
    glyphs: Seq<(u16, String)>,
)
    requires
        node.connective() is Or,
        shorter.connective() is Or,
        node.clauses@.len() > 0,
        shorter.clauses@ == node.clauses@.drop_last(),
        forall|i: int, j: int| 0 <= i < j < glyphs.len() ==> glyphs[i].0 < glyphs[j].0,
    ensures
        forall|i: int, j: int|
            selected(shorter, attrs, glyphs).len() <= i < j < selected(node, attrs, glyphs).len()
                ==> selected(node, attrs, glyphs)[i] < selected(node, attrs, glyphs)[j],
{
    let keep = |name: Seq<char>| clause_matches(node.clauses@.last(), attrs, name);
    lemma_select_ascends(glyphs, keep);
    lemma_added_ascend(clause_by_clause(shorter.clauses@, attrs, glyphs), select(glyphs, keep));
}

proof fn lemma_added_ascend(a: Seq<u16>, b: Seq<u16>)
    requires
        forall|i: int, j: int| 0 <= i < j < b.len() ==> b[i] < b[j],
    ensures
        first_seen(a).len() <= first_seen(a + b).len(),
        forall|i: int, j: int|
            first_seen(a).len() <= i < j < first_seen(a + b).len() ==> first_seen(a + b)[i]
                < first_seen(a + b)[j],
        forall|i: int|
            first_seen(a).len() <= i < first_seen(a + b).len() ==> b.len() > 0 && #[trigger]
                first_seen(a + b)[i] <= b.last(),
    decreases b.len(),
{
    if b.len() == 0 {
        assert(a + b =~= a);
    } else {
        let rest = b.drop_last();
        lemma_added_ascend(a, rest);
        assert((a + b).drop_last() =~= a + rest);
        assert((a + b).last() == b.last());
        let was = first_seen(a + rest);
        assert forall|i: int| first_seen(a).len() <= i < was.len() implies was[i] < b.last() by {
            assert(rest.last() == b[b.len() - 2]);
        }
    }
}

} // verus!
