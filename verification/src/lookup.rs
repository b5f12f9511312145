//! Association lists keyed by a name.

use vstd::prelude::*;

verus! {

/// What the first entry named `name` holds.
pub open spec fn named<V>(list: Seq<(String, V)>, name: Seq<char>) -> Option<V>
    decreases list.len(),
{
    if list.len() == 0 {
        None
    } else if list[0].0@ == name {
        Some(list[0].1)
    } else {
        named(list.skip(1), name)
    }
}

/// No two entries share a key.
pub open spec fn keyed<K, V>(list: Seq<(K, V)>) -> bool {
    forall|i: int, j: int|
        0 <= i < j < list.len() ==> (#[trigger] list[i]).0 != (#[trigger] list[j]).0
}

/// No two entries share a name.
pub open spec fn distinct_names<V>(list: Seq<(String, V)>) -> bool {
    forall|i: int, j: int| 0 <= i < j < list.len() ==> list[i].0@ != list[j].0@
}

/// The first entry with the name decides.
pub proof fn lemma_named_first<V>(list: Seq<(String, V)>, name: Seq<char>, i: int)
    requires
        0 <= i <= list.len(),
        forall|j: int| 0 <= j < i ==> list[j].0@ != name,
        i < list.len() ==> list[i].0@ == name,
    ensures
        named(list, name) == (if i < list.len() {
            Some(list[i].1)
        } else {
            None
        }),
    decreases i,
{
    if i > 0 {
        let rest = list.skip(1);
        assert forall|j: int| 0 <= j < i - 1 implies rest[j].0@ != name by {
            assert(rest[j] == list[j + 1]);
        }
        lemma_named_first(rest, name, i - 1);
    }
}

/// There is something under a name exactly if some entry has it.
pub proof fn lemma_named_any<V>(list: Seq<(String, V)>, name: Seq<char>)
    ensures
        named(list, name) is Some <==> exists|i: int|
            0 <= i < list.len() && (#[trigger] list[i]).0@ == name,
    decreases list.len(),
{
    if list.len() > 0 {
        let rest = list.skip(1);
        lemma_named_any(rest, name);
        if exists|i: int| 0 <= i < list.len() && (#[trigger] list[i]).0@ == name {
            let i = choose|i: int| 0 <= i < list.len() && (#[trigger] list[i]).0@ == name;
            if i > 0 {
                assert(rest[i - 1] == list[i]);
            }
        }
        if exists|i: int| 0 <= i < rest.len() && (#[trigger] rest[i]).0@ == name {
            let i = choose|i: int| 0 <= i < rest.len() && (#[trigger] rest[i]).0@ == name;
            assert(list[i + 1] == rest[i]);
        }
    }
}

/// The index of the first entry named `name`.
pub fn find_named<V>(list: &Vec<(String, V)>, name: &String) -> (r: Option<usize>)
    ensures
        match r {
            Some(i) => i < list@.len() && list@[i as int].0@ == name@ && named(list@, name@)
                == Some(list@[i as int].1) && forall|j: int|
                0 <= j < i ==> list@[j].0@ != name@,
            None => named(list@, name@) is None && forall|j: int|
                0 <= j < list@.len() ==> list@[j].0@ != name@,
        },
{
    let mut i: usize = 0;
    while i < list.len()
        invariant
            i <= list@.len(),
            forall|j: int| 0 <= j < i ==> list@[j].0@ != name@,
        decreases list.len() - i,
    {
        if list[i].0 == *name {
            proof {
                lemma_named_first(list@, name@, i as int);
            }
            return Some(i);
        }
        i = i + 1;
    }
    proof {
        lemma_named_first(list@, name@, list@.len() as int);
    }
    None
}

/// A sequence without repetitions: each element where it comes first.
pub open spec fn first_seen<A>(s: Seq<A>) -> Seq<A>
    decreases s.len(),
{
    if s.len() == 0 {
        seq![]
    } else {
        let seen = first_seen(s.drop_last());
        if seen.contains(s.last()) {
            seen
        } else {
            seen.push(s.last())
        }
    }
}

/// What is left out is only ever a repetition.
pub proof fn lemma_first_seen_contains<A>(s: Seq<A>)
    ensures
        first_seen(s).no_duplicates(),
        forall|i: int| 0 <= i < s.len() ==> first_seen(s).contains(#[trigger] s[i]),
        forall|i: int| 0 <= i < first_seen(s).len() ==> s.contains(#[trigger] first_seen(s)[i]),
    decreases s.len(),
{
    if s.len() > 0 {
        let rest = s.drop_last();
        lemma_first_seen_contains(rest);
        let seen = first_seen(rest);
        assert forall|i: int| 0 <= i < s.len() implies first_seen(s).contains(#[trigger] s[i]) by {
            if i < rest.len() {
                assert(seen.contains(rest[i]));
                let k = choose|k: int| 0 <= k < seen.len() && seen[k] == rest[i];
                assert(first_seen(s)[k] == s[i]);
            } else if !seen.contains(s.last()) {
                assert(first_seen(s)[seen.len() as int] == s[i]);
            }
        }
        assert forall|i: int| 0 <= i < first_seen(s).len() implies s.contains(
            #[trigger] first_seen(s)[i],
        ) by {
            if i < seen.len() {
                assert(rest.contains(seen[i]));
                let k = choose|k: int| 0 <= k < rest.len() && rest[k] == seen[i];
                assert(s[k] == first_seen(s)[i]);
            } else {
                assert(s[s.len() - 1] == s.last());
            }
        }
    }
}

/// A copy of a list.
pub fn copied<T: Copy>(list: &Vec<T>) -> (r: Vec<T>)
    ensures
        r@ == list@,
{
    let mut r: Vec<T> = Vec::new();
    let mut i: usize = 0;
    while i < list.len()
        invariant
            i <= list@.len(),
            r@ =~= list@.take(i as int),
        decreases list.len() - i,
    {
        r.push(list[i]);
        i = i + 1;
    }
    assert(r@ =~= list@);
    r
}

/// A copy of some strings.
pub fn copied_texts(list: &Vec<String>) -> (r: Vec<String>)
    ensures
        r@ == list@,
{
    let mut r: Vec<String> = Vec::new();
    let mut i: usize = 0;
    while i < list.len()
        invariant
            i <= list@.len(),
            r@ =~= list@.take(i as int),
        decreases list.len() - i,
    {
        r.push(list[i].clone());
        i = i + 1;
    }
    assert(r@ =~= list@);
    r
}

/// A copy of what a list says of some keys.
pub fn copied_values<K: Copy>(list: &Vec<(K, String)>) -> (r: Vec<(K, String)>)
    ensures
        r@ == list@,
{
    let mut r: Vec<(K, String)> = Vec::new();
    let mut i: usize = 0;
    while i < list.len()
        invariant
            i <= list@.len(),
            r@ =~= list@.take(i as int),
        decreases list.len() - i,
    {
        r.push((list[i].0, list[i].1.clone()));
        i = i + 1;
    }
    assert(r@ =~= list@);
    r
}

/// Those of a list that are flagged.
pub open spec fn flagged<T>(list: Seq<T>, flags: Seq<bool>) -> Seq<T>
    decreases list.len(),
{
    if list.len() == 0 {
        seq![]
    } else {
        let rest = flagged(list.drop_last(), flags);
        if flags[list.len() - 1] {
            rest.push(list.last())
        } else {
            rest
        }
    }
}

/// Keep those of a list that are flagged.
pub fn keep_flagged<T>(list: Vec<T>, flags: &Vec<bool>) -> (r: Vec<T>)
    requires
        list@.len() == flags@.len(),
    ensures
        r@ == flagged(list@, flags@),
{
    let ghost all = list@;
    let mut waiting: Vec<T> = list;
    let mut kept: Vec<T> = Vec::new();
    let mut i: usize = 0;
    assert(all.skip(0) =~= all);
    assert(flagged(all.take(0), flags@) =~= seq![]);
    while i < flags.len()
        invariant
            i <= flags@.len(),
            all.len() == flags@.len(),
            waiting@ == all.skip(i as int),
            kept@ == flagged(all.take(i as int), flags@),
        decreases flags.len() - i,
    {
        assert(all.take(i + 1).drop_last() =~= all.take(i as int));
        let next: T = waiting.remove(0);
        assert(next == all[i as int]);
        assert(waiting@ =~= all.skip(i + 1));
        if flags[i] {
            kept.push(next);
        }
        i = i + 1;
    }
    assert(all.take(i as int) =~= all);
    kept
}

/// A list is filtered one by one, in order: what is flagged stays.
pub proof fn law_lists_are_filtered_one_by_one<T>(
    list: Seq<T>,
    flags: Seq<bool>,
    item: T,
    flag: bool,
)
    requires
        list.len() == flags.len(),
    ensures
        flagged(Seq::<T>::empty(), Seq::empty()).len() == 0,
        flagged(list.push(item), flags.push(flag)) == if flag {
            flagged(list, flags).push(item)
        } else {
            flagged(list, flags)
        },
{
    assert(list.push(item).drop_last() =~= list);
    lemma_flagged_reads_its_flags(list, flags, flags.push(flag));
}

proof fn lemma_flagged_reads_its_flags<T>(list: Seq<T>, flags: Seq<bool>, longer: Seq<bool>)
    requires
        list.len() <= flags.len(),
        list.len() <= longer.len(),
        forall|i: int| 0 <= i < list.len() ==> flags[i] == longer[i],
    ensures
        flagged(list, flags) == flagged(list, longer),
    decreases list.len(),
{
    if list.len() > 0 {
        lemma_flagged_reads_its_flags(list.drop_last(), flags, longer);
        assert(flags[list.len() - 1] == longer[list.len() - 1]);
    }
}

/// What is flagged is kept.
pub proof fn law_what_is_flagged_is_kept<T>(list: Seq<T>, flags: Seq<bool>, i: int)
    requires
        list.len() <= flags.len(),
        0 <= i < list.len(),
        flags[i],
    ensures
        flagged(list, flags).contains(list[i]),
    decreases list.len(),
{
    let rest = list.drop_last();
    let before = flagged(rest, flags);
    let after = flagged(list, flags);
    if i < rest.len() {
        law_what_is_flagged_is_kept(rest, flags, i);
        let k = choose|k: int| 0 <= k < before.len() && before[k] == rest[i];
        assert(after[k] == list[i]);
    } else {
        assert(after[before.len() as int] == list[i]);
    }
}

/// What is kept was flagged, and here is where.
pub proof fn law_what_is_kept_was_flagged<T>(list: Seq<T>, flags: Seq<bool>, k: int) -> (i: int)
    requires
        list.len() <= flags.len(),
        0 <= k < flagged(list, flags).len(),
    ensures
        0 <= i < list.len(),
        flags[i],
        list[i] == flagged(list, flags)[k],
    decreases list.len(),
{
    let before = flagged(list.drop_last(), flags);
    if k < before.len() {
        law_what_is_kept_was_flagged(list.drop_last(), flags, k)
    } else {
        list.len() - 1
    }
}

/// Repetitions are left out, and each element stays where it comes first.
pub proof fn law_repetitions_are_left_out<A>(s: Seq<A>, a: A)
    ensures
        first_seen(Seq::<A>::empty()).len() == 0,
        first_seen(s.push(a)) == if s.contains(a) {
            first_seen(s)
        } else {
            first_seen(s).push(a)
        },
{
    lemma_first_seen_contains(s);
    assert(s.push(a).drop_last() =~= s);
    if s.contains(a) {
        let i = choose|i: int| 0 <= i < s.len() && s[i] == a;
        assert(first_seen(s).contains(s[i]));
    }
    if first_seen(s).contains(a) {
        let k = choose|k: int| 0 <= k < first_seen(s).len() && first_seen(s)[k] == a;
        assert(s.contains(first_seen(s)[k]));
    }
}

} // verus!
