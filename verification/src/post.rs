//! Glyph names as they appear in the final font, and the `post` table.

use crate::coords::Real;
use crate::lookup;
use crate::numeric;
use crate::static_metadata::StaticMetadata;
use crate::text;
use vstd::prelude::*;
use vstd::string::*;

verus! {

/// The characters that a glyph name in a font may have.
pub open spec fn allowed(c: char) -> bool {
    ('A' <= c && c <= 'Z') || ('a' <= c && c <= 'z') || ('0' <= c && c <= '9') || c == '.' || c
        == '_'
}

/// A name without the characters that are not allowed.
pub open spec fn scrubbed(name: Seq<char>) -> Seq<char>
    decreases name.len(),
{
    if name.len() == 0 {
        seq![]
    } else if allowed(name.last()) {
        scrubbed(name.drop_last()).push(name.last())
    } else {
        scrubbed(name.drop_last())
    }
}

/// A name with a number behind it.
pub open spec fn suffixed(name: Seq<char>, n: nat) -> Seq<char> {
    name + seq!['.'] + text::decimal(n)
}

/// `n` is the first number from `from` on that makes a name out of `name` that
/// is not among `seen`.
pub open spec fn is_free_suffix(
    seen: Map<Seq<char>, nat>,
    name: Seq<char>,
    from: nat,
    n: nat,
) -> bool {
    &&& from <= n
    &&& !seen.contains_key(suffixed(name, n))
    &&& forall|k: nat| from <= k < n ==> #[trigger] seen.contains_key(suffixed(name, k))
}

/// The first number from `from` on that makes a new name out of `name`.
pub open spec fn free_suffix(seen: Map<Seq<char>, nat>, name: Seq<char>, from: nat) -> nat {
    choose|n: nat| is_free_suffix(seen, name, from, n)
}

/// One more name: as it is if it is new, else with the next number that makes
/// it new. `seen` holds every name so far, and the last number put behind it.
pub open spec fn name_step(seen: Map<Seq<char>, nat>, name: Seq<char>) -> (
    Map<Seq<char>, nat>,
    Seq<char>,
) {
    if seen.contains_key(name) {
        let n = free_suffix(seen, name, seen[name] + 1);
        (seen.insert(name, n).insert(suffixed(name, n), 0), suffixed(name, n))
    } else {
        (seen.insert(name, 0), name)
    }
}

/// What has been seen after these names, and what they became.
pub open spec fn made_unique(names: Seq<Seq<char>>) -> (Map<Seq<char>, nat>, Seq<Seq<char>>)
    decreases names.len(),
{
    if names.len() == 0 {
        (Map::empty(), seq![])
    } else {
        let (seen, done) = made_unique(names.drop_last());
        let (now, name) = name_step(seen, names.last());
        (now, done.push(name))
    }
}

/// The production name of a glyph, or its own if it has none, scrubbed.
pub open spec fn production_name(rename: Seq<(String, String)>, glyph: Seq<char>) -> Seq<char> {
    scrubbed(
        match lookup::named(rename, glyph) {
            Some(name) => name@,
            None => glyph,
        },
    )
}

/// Glyph names as they appear in the final font.
pub open spec fn final_names(
    glyph_order: Seq<Seq<char>>,
    rename: Option<Seq<(String, String)>>,
) -> Seq<Seq<char>> {
    match rename {
        Some(rename) => made_unique(
            glyph_order.map_values(|g: Seq<char>| production_name(rename, g)),
        ).1,
        None => glyph_order,
    }
}

/// What a list of names and numbers has been seen to hold.
pub open spec fn seen_map(list: Seq<(String, u64)>) -> Map<Seq<char>, nat>
    decreases list.len(),
{
    if list.len() == 0 {
        Map::empty()
    } else {
        seen_map(list.drop_last()).insert(list.last().0@, list.last().1 as nat)
    }
}

fn is_allowed(c: char) -> (r: bool)
    ensures
        r == allowed(c),
{
    ('A' <= c && c <= 'Z') || ('a' <= c && c <= 'z') || ('0' <= c && c <= '9') || c == '.' || c
        == '_'
}

fn scrub(name: &str) -> (r: String)
    ensures
        r@ == scrubbed(name@),
{
    let chars: Vec<char> = text::chars_of(name);
    let mut out: String = String::new();
    let mut i: usize = 0;
    while i < chars.len()
        invariant
            i <= chars@.len(),
            chars@ == name@,
            out@ == scrubbed(chars@.take(i as int)),
        decreases chars.len() - i,
    {
        assert(chars@.take(i + 1).drop_last() =~= chars@.take(i as int));
        if is_allowed(chars[i]) {
            out.push(chars[i]);
        }
        i = i + 1;
    }
    assert(chars@.take(i as int) =~= chars@);
    out
}

fn with_suffix(name: &String, n: u64) -> (r: String)
    ensures
        r@ == suffixed(name@, n as nat),
{
    let mut r: String = name.clone();
    r.push('.');
    r.append(text::decimal_of(n).as_str());
    assert(r@ =~= suffixed(name@, n as nat));
    r
}

/// How many of these names are `name` with a number from `n` on behind it.
spec fn pending(done: Seq<Seq<char>>, name: Seq<char>, n: nat) -> nat
    decreases done.len(),
{
    if done.len() == 0 {
        0
    } else {
        pending(done.drop_last(), name, n) + if is_numbered(done.last(), name, n) {
            1nat
        } else {
            0nat
        }
    }
}

spec fn is_numbered(text: Seq<char>, name: Seq<char>, n: nat) -> bool {
    exists|k: nat| n <= k && text == #[trigger] suffixed(name, k)
}

proof fn lemma_suffixed_injective(name: Seq<char>, a: nat, b: nat)
    requires
        suffixed(name, a) == suffixed(name, b),
    ensures
        a == b,
{
    let m = name.len() as int + 1;
    assert(suffixed(name, a).skip(m) =~= text::decimal(a));
    assert(suffixed(name, b).skip(m) =~= text::decimal(b));
    text::law_decimal_is_injective(a, b);
}

proof fn lemma_pending_monotone(done: Seq<Seq<char>>, name: Seq<char>, n: nat)
    ensures
        pending(done, name, n + 1) <= pending(done, name, n) <= done.len(),
    decreases done.len(),
{
    if done.len() > 0 {
        lemma_pending_monotone(done.drop_last(), name, n);
    }
}

proof fn lemma_pending_drops(done: Seq<Seq<char>>, name: Seq<char>, n: nat)
    requires
        done.contains(suffixed(name, n)),
    ensures
        pending(done, name, n + 1) < pending(done, name, n),
    decreases done.len(),
{
    let rest = done.drop_last();
    lemma_pending_monotone(rest, name, n);
    if done.last() == suffixed(name, n) {
        assert(is_numbered(done.last(), name, n));
        if is_numbered(done.last(), name, n + 1) {
            let k = choose|k: nat| n + 1 <= k && done.last() == #[trigger] suffixed(name, k);
            lemma_suffixed_injective(name, n, k);
        }
    } else {
        let i = choose|i: int| 0 <= i < done.len() && done[i] == suffixed(name, n);
        assert(rest[i] == suffixed(name, n));
        lemma_pending_drops(rest, name, n);
    }
}

/// There are no more numbered names than there are names.
proof fn lemma_numbers_are_few(done: Seq<Seq<char>>, name: Seq<char>, u: nat)
    requires
        forall|k: nat| 1 <= k <= u ==> done.contains(#[trigger] suffixed(name, k)),
    ensures
        u + pending(done, name, u + 1) <= done.len(),
    decreases u,
{
    if u == 0 {
        lemma_pending_monotone(done, name, 1);
    } else {
        lemma_numbers_are_few(done, name, (u - 1) as nat);
        lemma_pending_drops(done, name, u);
    }
}

/// `seen` fits the names that have come out so far: it holds those and no
/// others, and every number up to the last one put behind a name is taken.
spec fn fits(seen: Map<Seq<char>, nat>, done: Seq<Seq<char>>) -> bool {
    &&& forall|name: Seq<char>| #[trigger] seen.contains_key(name) <==> done.contains(name)
    &&& forall|name: Seq<char>, k: nat|
        seen.contains_key(name) && 1 <= k <= seen[name] ==> #[trigger] seen.contains_key(
            suffixed(name, k),
        )
}

proof fn lemma_step_fits(seen: Map<Seq<char>, nat>, done: Seq<Seq<char>>, name: Seq<char>, n: nat)
    requires
        fits(seen, done),
        seen.contains_key(name) ==> is_free_suffix(seen, name, seen[name] + 1, n),
    ensures
        fits(name_step(seen, name).0, done.push(name_step(seen, name).1)),
        !done.contains(name_step(seen, name).1),
        seen.contains_key(name) ==> free_suffix(seen, name, seen[name] + 1) == n,
{
    let (now, fresh) = name_step(seen, name);
    let after = done.push(fresh);
    if seen.contains_key(name) {
        let m = free_suffix(seen, name, seen[name] + 1);
        assert(is_free_suffix(seen, name, seen[name] + 1, m));
        if m < n {
            assert(seen.contains_key(suffixed(name, m)));
        }
        if n < m {
            assert(seen.contains_key(suffixed(name, n)));
        }
        assert(m == n);
    }
    assert(!seen.contains_key(fresh));
    assert forall|x: Seq<char>| #[trigger] now.contains_key(x) <==> after.contains(x) by {
        if done.contains(x) {
            let i = choose|i: int| 0 <= i < done.len() && done[i] == x;
            assert(after[i] == x);
            assert(seen.contains_key(x));
        }
        assert(after[done.len() as int] == fresh);
        if after.contains(x) {
            let i = choose|i: int| 0 <= i < after.len() && after[i] == x;
            if i < done.len() {
                assert(done[i] == x);
                assert(seen.contains_key(x));
            }
        }
    }
    assert forall|x: Seq<char>, k: nat| now.contains_key(x) && 1 <= k <= now[x] implies #[trigger] now.contains_key(
        suffixed(x, k),
    ) by {
        if x != fresh {
            assert(seen.contains_key(x));
            if x == name {
                if k <= seen[name] {
                    assert(seen.contains_key(suffixed(x, k)));
                } else if k < n {
                    assert(seen.contains_key(suffixed(x, k)));
                }
            } else {
                assert(seen.contains_key(suffixed(x, k)));
            }
        }
    }
}

/// The last number put behind a name, if it has been seen.
fn find_seen(list: &Vec<(String, u64)>, name: &String) -> (r: Option<u64>)
    ensures
        match r {
            Some(n) => seen_map(list@).contains_key(name@) && seen_map(list@)[name@] == n,
            None => !seen_map(list@).contains_key(name@),
        },
{
    let mut n: usize = list.len();
    assert(list@.take(n as int) =~= list@);
    while n > 0
        invariant
            n <= list@.len(),
            seen_map(list@).contains_key(name@) == seen_map(list@.take(n as int)).contains_key(
                name@,
            ),
            seen_map(list@).contains_key(name@) ==> seen_map(list@)[name@] == seen_map(
                list@.take(n as int),
            )[name@],
        decreases n,
    {
        assert(list@.take(n as int).drop_last() =~= list@.take(n - 1));
        assert(list@.take(n as int).last() == list@[n - 1]);
        if list[n - 1].0 == *name {
            return Some(list[n - 1].1);
        }
        n = n - 1;
    }
    None
}

/// Glyph names as they appear in the final font.
///
/// When there is a rename map, production names are applied, scrubbed of
/// characters that are not allowed, and made unique with a number.
pub fn final_glyph_names(glyph_order: &Vec<String>, rename_map: Option<&Vec<(String, String)>>) -> (r:
    Vec<String>)
    ensures
        text::texts(r@) == final_names(
            text::texts(glyph_order@),
            match rename_map {
                Some(rename) => Some(rename@),
                None => None,
            },
        ),
{
    let mut out: Vec<String> = Vec::new();
    let rename: &Vec<(String, String)> = match rename_map {
        Some(rename) => rename,
        None => {
            let mut i: usize = 0;
            while i < glyph_order.len()
                invariant
                    i <= glyph_order@.len(),
                    text::texts(out@) =~= text::texts(glyph_order@).take(i as int),
                decreases glyph_order.len() - i,
            {
                let ghost before = out@;
                out.push(glyph_order[i].clone());
                assert(text::texts(out@) =~= text::texts(before).push(glyph_order@[i as int]@));
                i = i + 1;
            }
            assert(text::texts(out@) =~= text::texts(glyph_order@));
            return out;
        },
    };
    let ghost raws = text::texts(glyph_order@).map_values(
        |g: Seq<char>| production_name(rename@, g),
    );
    let mut seen: Vec<(String, u64)> = Vec::new();
    let mut i: usize = 0;
    assert(text::texts(out@) =~= made_unique(raws.take(0)).1);
    while i < glyph_order.len()
        invariant
            i <= glyph_order@.len(),
            raws == text::texts(glyph_order@).map_values(
                |g: Seq<char>| production_name(rename@, g),
            ),
            seen_map(seen@) == made_unique(raws.take(i as int)).0,
            text::texts(out@) == made_unique(raws.take(i as int)).1,
            fits(seen_map(seen@), text::texts(out@)),
            out@.len() == i,
        decreases glyph_order.len() - i,
    {
        let own: &String = &glyph_order[i];
        let name: String = match lookup::find_named(rename, own) {
            Some(k) => scrub(rename[k].1.as_str()),
            None => scrub(own.as_str()),
        };
        let ghost done = text::texts(out@);
        let ghost was = seen_map(seen@);
        proof {
            assert(raws.take(i + 1).drop_last() =~= raws.take(i as int));
            assert(text::texts(glyph_order@)[i as int] == own@);
            assert(raws.take(i + 1).last() == name@);
            assert(done.len() == i);
        }
        match find_seen(&seen, &name) {
            Some(used) => {
                proof {
                    assert forall|k: nat| 1 <= k <= used implies done.contains(
                        #[trigger] suffixed(name@, k),
                    ) by {
                        assert(was.contains_key(suffixed(name@, k)));
                    }
                    lemma_numbers_are_few(done, name@, used as nat);
                }
                let mut n: u64 = used + 1;
                let mut candidate: String = with_suffix(&name, n);
                while find_seen(&seen, &candidate).is_some()
                    invariant
                        was == seen_map(seen@),
                        fits(was, done),
                        was.contains_key(name@),
                        was[name@] == used,
                        used < n,
                        n <= i + 1,
                        done.len() == i,
                        i < glyph_order.len(),
                        candidate@ == suffixed(name@, n as nat),
                        forall|k: nat|
                            1 <= k < n ==> #[trigger] was.contains_key(suffixed(name@, k)),
                    decreases pending(done, name@, n as nat),
                {
                    proof {
                        assert(was.contains_key(suffixed(name@, n as nat)));
                        assert(done.contains(suffixed(name@, n as nat)));
                        lemma_pending_drops(done, name@, n as nat);
                        assert forall|k: nat| 1 <= k <= n implies done.contains(
                            #[trigger] suffixed(name@, k),
                        ) by {
                            assert(was.contains_key(suffixed(name@, k)));
                        }
                        lemma_numbers_are_few(done, name@, n as nat);
                    }
                    n = n + 1;
                    candidate = with_suffix(&name, n);
                }
                proof {
                    assert(is_free_suffix(was, name@, (used + 1) as nat, n as nat));
                    lemma_step_fits(was, done, name@, n as nat);
                }
                let ghost before = seen@;
                let ghost text_name = name@;
                seen.push((name, n));
                let ghost middle = seen@;
                assert(middle.drop_last() =~= before);
                assert(seen_map(middle) == was.insert(text_name, n as nat));
                seen.push((candidate.clone(), 0));
                assert(seen@.drop_last() =~= middle);
                assert(seen_map(seen@) == seen_map(middle).insert(candidate@, 0));
                let ghost outs = out@;
                let ghost text_candidate = candidate@;
                out.push(candidate);
                assert(text::texts(out@) =~= text::texts(outs).push(text_candidate));
                assert(seen_map(seen@) == name_step(was, text_name).0);
            },
            None => {
                proof {
                    lemma_step_fits(was, done, name@, 0);
                }
                let ghost before = seen@;
                seen.push((name.clone(), 0));
                assert(seen@.drop_last() =~= before);
                let ghost outs = out@;
                let ghost text_name = name@;
                out.push(name);
                assert(text::texts(out@) =~= text::texts(outs).push(text_name));
            },
        }
        i = i + 1;
    }
    assert(raws.take(i as int) =~= raws);
    out
}

/// For every name there is a number that makes a new name out of it.
proof fn lemma_free_suffix_exists(
    seen: Map<Seq<char>, nat>,
    done: Seq<Seq<char>>,
    name: Seq<char>,
    from: nat,
    n: nat,
) -> (r: nat)
    requires
        fits(seen, done),
        from <= n,
        forall|k: nat| from <= k < n ==> #[trigger] seen.contains_key(suffixed(name, k)),
    ensures
        is_free_suffix(seen, name, from, r),
    decreases pending(done, name, n),
{
    if seen.contains_key(suffixed(name, n)) {
        lemma_pending_drops(done, name, n);
        lemma_free_suffix_exists(seen, done, name, from, n + 1)
    } else {
        n
    }
}

proof fn lemma_made_unique(names: Seq<Seq<char>>)
    ensures
        fits(made_unique(names).0, made_unique(names).1),
        made_unique(names).1.no_duplicates(),
        made_unique(names).1.len() == names.len(),
    decreases names.len(),
{
    if names.len() > 0 {
        lemma_made_unique(names.drop_last());
        let (seen, done) = made_unique(names.drop_last());
        let name = names.last();
        let n = if seen.contains_key(name) {
            lemma_free_suffix_exists(seen, done, name, seen[name] + 1, seen[name] + 1)
        } else {
            0
        };
        lemma_step_fits(seen, done, name, n);
    }
}

/// With a rename map, no two glyphs of a font end up with the same name.
pub proof fn law_final_names_are_unique(
    glyph_order: Seq<Seq<char>>,
    rename: Seq<(String, String)>,
)
    ensures
        final_names(glyph_order, Some(rename)).no_duplicates(),
        final_names(glyph_order, Some(rename)).len() == glyph_order.len(),
{
    lemma_made_unique(glyph_order.map_values(|g: Seq<char>| production_name(rename, g)));
}

pub open spec fn all_allowed(name: Seq<char>) -> bool {
    forall|i: int| 0 <= i < name.len() ==> allowed(#[trigger] name[i])
}

proof fn lemma_scrubbed_allowed(name: Seq<char>)
    ensures
        all_allowed(scrubbed(name)),
    decreases name.len(),
{
    if name.len() > 0 {
        lemma_scrubbed_allowed(name.drop_last());
    }
}

proof fn lemma_decimal_allowed(n: nat)
    ensures
        all_allowed(text::decimal(n)),
    decreases n,
{
    if n >= 10 {
        lemma_decimal_allowed(n / 10);
    }
}

proof fn lemma_made_unique_allowed(names: Seq<Seq<char>>, i: int)
    requires
        forall|i: int| 0 <= i < names.len() ==> all_allowed(#[trigger] names[i]),
        0 <= i < names.len(),
    ensures
        made_unique(names).1.len() == names.len(),
        all_allowed(made_unique(names).1[i]),
    decreases names.len(),
{
    let rest = names.drop_last();
    lemma_made_unique(names);
    lemma_made_unique(rest);
    if i < rest.len() {
        assert forall|i: int| 0 <= i < rest.len() implies all_allowed(#[trigger] rest[i]) by {
            assert(names[i] == rest[i]);
        }
        lemma_made_unique_allowed(rest, i);
    } else {
        let (seen, done) = made_unique(rest);
        let name = names.last();
        assert(names[names.len() - 1] == name);
        if seen.contains_key(name) {
            let n = free_suffix(seen, name, seen[name] + 1);
            lemma_decimal_allowed(n);
            let fresh = suffixed(name, n);
            assert forall|k: int| 0 <= k < fresh.len() implies allowed(#[trigger] fresh[k]) by {
                if k < name.len() {
                    assert(fresh[k] == name[k]);
                } else if k > name.len() {
                    assert(fresh[k] == text::decimal(n)[k - name.len() - 1]);
                }
            }
        }
    }
}

/// With a rename map, names have nothing but letters, digits, `.` and `_`.
pub proof fn law_final_names_are_clean(
    glyph_order: Seq<Seq<char>>,
    rename: Seq<(String, String)>,
    i: int,
)
    requires
        0 <= i < glyph_order.len(),
    ensures
        final_names(glyph_order, Some(rename)).len() == glyph_order.len(),
        all_allowed(final_names(glyph_order, Some(rename))[i]),
{
    let raws = glyph_order.map_values(|g: Seq<char>| production_name(rename, g));
    assert forall|k: int| 0 <= k < raws.len() implies all_allowed(#[trigger] raws[k]) by {
        lemma_scrubbed_allowed(
            match lookup::named(rename, glyph_order[k]) {
                Some(name) => name@,
                None => glyph_order[k],
            },
        );
    }
    lemma_made_unique_allowed(raws, i);
}

/// The glyph names of a `post` table of format 2: an index for each glyph, into
/// the standard Macintosh names and, past those, into strings of its own.
#[derive(Debug, PartialEq, Eq)]
pub struct PostNames {
    pub num_glyphs: u16,
    pub glyph_name_index: Vec<u16>,
    pub string_data: Vec<String>,
}

/// How many standard Macintosh glyph names there are.
pub const STANDARD_NAMES: usize = 258;

/// How many strings a `post` table of format 2 can have of its own.
pub const MAX_CUSTOM_NAMES: usize = 65278;

/// The indices and strings that `write_fonts::tables::post::Post::new_v2` makes
/// of some glyph names.
pub uninterp spec fn post_v2(names: Seq<Seq<char>>) -> (Seq<u16>, Seq<Seq<char>>);

/// An index past the standard names is that of the glyph's own name.
pub open spec fn custom_names_read_back(
    names: Seq<Seq<char>>,
    index: Seq<u16>,
    strings: Seq<Seq<char>>,
) -> bool {
    strings.len() <= MAX_CUSTOM_NAMES ==> forall|i: int|
        0 <= i < names.len() && #[trigger] index[i] >= STANDARD_NAMES ==> index[i] - STANDARD_NAMES
            < strings.len() && strings[index[i] - STANDARD_NAMES] == names[i]
}

/// `write_fonts::tables::post::Post::new_v2`: how a `post` table of format 2
/// holds some glyph names.
///
/// There is an index for each glyph, and their number is counted up to the most
/// that a table can have. An index past the standard names is that of the
/// glyph's own name, unless there are more strings than a table can have, and no
/// string is there twice. Which names are standard is left to the name of the
/// result.
#[verifier::external_body]
fn names_v2(names: &Vec<String>) -> (r: PostNames)
    ensures
        (r.glyph_name_index@, text::texts(r.string_data@)) == post_v2(text::texts(names@)),
        r.glyph_name_index@.len() == names@.len(),
        r.num_glyphs == (if names@.len() <= 0xFFFF {
            names@.len() as int
        } else {
            0xFFFF
        }),
        text::texts(r.string_data@).no_duplicates(),
        custom_names_read_back(
            text::texts(names@),
            r.glyph_name_index@,
            text::texts(r.string_data@),
        ),
{
    let post = write_fonts::tables::post::Post::new_v2(names.iter().map(|name| name.as_str()));
    PostNames {
        num_glyphs: post.num_glyphs.unwrap(),
        glyph_name_index: post.glyph_name_index.unwrap(),
        string_data: post.string_data.unwrap().iter().map(|s| str::to_string(s)).collect(),
    }
}

/// The `post` table of a font.
#[derive(Debug, PartialEq, Eq)]
pub struct PostTable {
    /// The glyph names, or nothing in a table of format 3.
    pub names: Option<PostNames>,
    pub is_fixed_pitch: u32,
    /// In units of 1/65536 of a degree.
    pub italic_angle: i32,
    pub underline_position: i16,
    pub underline_thickness: i16,
}

/// How a `post` table holds these glyph names.
pub open spec fn holds_names(names: Seq<Seq<char>>, r: PostNames) -> bool {
    &&& (r.glyph_name_index@, text::texts(r.string_data@)) == post_v2(names)
    &&& r.glyph_name_index@.len() == names.len()
    &&& r.num_glyphs == (if names.len() <= 0xFFFF {
        names.len() as int
    } else {
        0xFFFF
    })
    &&& text::texts(r.string_data@).no_duplicates()
    &&& custom_names_read_back(names, r.glyph_name_index@, text::texts(r.string_data@))
}

/// The glyph names of a font, under its production names if it has any.
pub open spec fn names_in(
    static_metadata: StaticMetadata,
    glyph_order: Seq<Seq<char>>,
) -> Seq<Seq<char>> {
    final_names(
        glyph_order,
        match static_metadata.postscript_names {
            Some(rename) => Some(rename@),
            None => None,
        },
    )
}

/// What the `post` table of a font says. The underline is the default
/// location's: its position and its thickness.
///
/// A static font with PostScript outlines carries its glyph names in the CFF
/// charset; every other font has them here.
pub fn post_table<R: Fn(Real) -> i16, F: Fn(Real) -> i32>(
    static_metadata: &StaticMetadata,
    glyph_order: &Vec<String>,
    cff_outlines: bool,
    underline: (Real, Real),
    round: &R,
    fixed: &F,
) -> (r: PostTable)
    requires
        numeric::is_map(*round),
        numeric::is_map(*fixed),
    ensures
        r.names is None <==> cff_outlines && static_metadata.axes@.len() == 0,
        r.names matches Some(names) ==> holds_names(
            names_in(*static_metadata, text::texts(glyph_order@)),
            names,
        ),
        r.is_fixed_pitch == (if static_metadata.misc.is_fixed_pitch == Some(true) {
            1u32
        } else {
            0u32
        }),
        r.italic_angle == numeric::image(*fixed, static_metadata.italic_angle),
        r.underline_position == numeric::image(*round, underline.0),
        r.underline_thickness == numeric::image(*round, underline.1),
{
    let names: Option<PostNames> = if cff_outlines && static_metadata.axes.len() == 0 {
        None
    } else {
        let rename: Option<&Vec<(String, String)>> = match &static_metadata.postscript_names {
            Some(rename) => Some(rename),
            None => None,
        };
        Some(names_v2(&final_glyph_names(glyph_order, rename)))
    };
    let is_fixed_pitch: u32 = if static_metadata.misc.is_fixed_pitch.unwrap_or(false) {
        1
    } else {
        0
    };
    PostTable {
        names,
        is_fixed_pitch,
        italic_angle: numeric::apply(fixed, static_metadata.italic_angle),
        underline_position: numeric::apply(round, underline.0),
        underline_thickness: numeric::apply(round, underline.1),
    }
}

/// Names are scrubbed character by character: letters and digits of ASCII, the
/// full stop and the underscore stay, and everything else goes.
pub proof fn law_names_are_scrubbed_character_by_character(name: Seq<char>, c: char)
    ensures
        scrubbed(Seq::empty()).len() == 0,
        'A' <= c && c <= 'Z' || 'a' <= c && c <= 'z' || '0' <= c && c <= '9' || c == '.' || c == '_'
            ==> scrubbed(name.push(c)) == scrubbed(name).push(c),
        !('A' <= c && c <= 'Z' || 'a' <= c && c <= 'z' || '0' <= c && c <= '9' || c == '.' || c
            == '_') ==> scrubbed(name.push(c)) == scrubbed(name),
{
    assert(name.push(c).drop_last() =~= name);
}

/// A glyph goes by the first name that the map has for it, or by its own if
/// there is none.
pub proof fn law_glyphs_go_by_the_names_that_the_map_has(
    rename: Seq<(String, String)>,
    glyph: Seq<char>,
    i: int,
)
    ensures
        0 <= i < rename.len() && rename[i].0@ == glyph && (forall|j: int|
            0 <= j < i ==> (#[trigger] rename[j]).0@ != glyph) ==> production_name(rename, glyph)
            == scrubbed(rename[i].1@),
        (forall|j: int| 0 <= j < rename.len() ==> (#[trigger] rename[j]).0@ != glyph)
            ==> production_name(rename, glyph) == scrubbed(glyph),
{
    if 0 <= i < rename.len() && rename[i].0@ == glyph && (forall|j: int|
        0 <= j < i ==> (#[trigger] rename[j]).0@ != glyph) {
        lookup::lemma_named_first(rename, glyph, i);
    }
    if forall|j: int| 0 <= j < rename.len() ==> (#[trigger] rename[j]).0@ != glyph {
        lookup::lemma_named_any(rename, glyph);
    }
}

/// Without a rename map, names stay as they are.
pub proof fn law_without_a_map_names_stay(glyph_order: Seq<Seq<char>>)
    ensures
        final_names(glyph_order, None) == glyph_order,
{
}

/// One more glyph leaves the names before it alone. Its own name stays if it is
/// new; else it gets a full stop and the smallest number from one on that makes
/// it new.
pub proof fn law_repeated_names_are_numbered(
    glyph_order: Seq<Seq<char>>,
    rename: Seq<(String, String)>,
    glyph: Seq<char>,
) -> (n: nat)
    ensures
        ({
            let before = final_names(glyph_order, Some(rename));
            let after = final_names(glyph_order.push(glyph), Some(rename));
            let name = production_name(rename, glyph);
            &&& !before.contains(name) ==> after == before.push(name)
            &&& before.contains(name) ==> n >= 1 && after == before.push(
                name + seq!['.'] + text::decimal(n),
            ) && !before.contains(name + seq!['.'] + text::decimal(n)) && forall|k: nat|
                1 <= k < n ==> before.contains(name + seq!['.'] + #[trigger] text::decimal(k))
        }),
{
    let f = |g: Seq<char>| production_name(rename, g);
    let names = glyph_order.map_values(f);
    let name = production_name(rename, glyph);
    let more = glyph_order.push(glyph).map_values(f);
    assert(more =~= names.push(name));
    assert(more.drop_last() =~= names);
    lemma_made_unique(names);
    let (seen, done) = made_unique(names);
    assert(seen.contains_key(name) <==> done.contains(name));
    let n = if seen.contains_key(name) {
        lemma_free_suffix_exists(seen, done, name, seen[name] + 1, seen[name] + 1)
    } else {
        0
    };
    lemma_step_fits(seen, done, name, n);
    if seen.contains_key(name) {
        assert(seen.contains_key(suffixed(name, n)) <==> done.contains(suffixed(name, n)));
        assert forall|k: nat| 1 <= k < n implies done.contains(
            name + seq!['.'] + #[trigger] text::decimal(k),
        ) by {
            assert(seen.contains_key(suffixed(name, k)));
            assert(done.contains(suffixed(name, k)));
        }
    }
    n
}

} // verus!
