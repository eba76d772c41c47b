//! Lists of named entries, read as maps from names to values.

use crate::text::str_eq;
use vstd::prelude::*;

verus! {

/// The map that results from inserting the entries one after the other: of entries with the
/// same name the last one counts.
pub open spec fn entries_map<T>(entries: Seq<(Seq<char>, T)>) -> Map<Seq<char>, T>
    decreases entries.len(),
{
    if entries.len() == 0 {
        Map::empty()
    } else {
        entries_map(entries.drop_last()).insert(entries.last().0, entries.last().1)
    }
}

/// No name occurs twice.
pub open spec fn distinct<T>(entries: Seq<(Seq<char>, T)>) -> bool {
    forall|i: int, j: int| 0 <= i < j < entries.len() ==> entries[i].0 != entries[j].0
}

/// `i` is the position of the last entry named `name`.
pub open spec fn last_named<T>(entries: Seq<(Seq<char>, T)>, name: Seq<char>, i: int) -> bool {
    &&& 0 <= i < entries.len()
    &&& entries[i].0 == name
    &&& forall|j: int| i < j < entries.len() ==> entries[j].0 != name
}

/// No entry is named `name`.
pub open spec fn unnamed<T>(entries: Seq<(Seq<char>, T)>, name: Seq<char>) -> bool {
    forall|j: int| 0 <= j < entries.len() ==> entries[j].0 != name
}

/// The map holds under each name the value of the last entry with that name.
pub proof fn lemma_lookup<T>(entries: Seq<(Seq<char>, T)>, name: Seq<char>, i: int)
    requires
        last_named(entries, name, i),
    ensures
        entries_map(entries).contains_key(name),
        entries_map(entries)[name] == entries[i].1,
    decreases entries.len(),
{
    if i < entries.len() - 1 {
        lemma_lookup(entries.drop_last(), name, i);
    }
}

/// The map holds nothing under a name that no entry has.
pub proof fn lemma_absent<T>(entries: Seq<(Seq<char>, T)>, name: Seq<char>)
    requires
        unnamed(entries, name),
    ensures
        !entries_map(entries).contains_key(name),
    decreases entries.len(),
{
    if entries.len() > 0 {
        lemma_absent(entries.drop_last(), name);
    }
}

/// Replacing the last entry of a name is inserting under that name.
pub proof fn lemma_replace<T>(entries: Seq<(Seq<char>, T)>, name: Seq<char>, i: int, value: T)
    requires
        last_named(entries, name, i),
    ensures
        entries_map(entries.update(i, (name, value))) == entries_map(entries).insert(name, value),
    decreases entries.len(),
{
    let changed = entries.update(i, (name, value));
    if i < entries.len() - 1 {
        lemma_replace(entries.drop_last(), name, i, value);
        assert(changed.drop_last() =~= entries.drop_last().update(i, (name, value)));
        assert(entries_map(changed) =~= entries_map(entries).insert(name, value));
    } else {
        assert(changed.drop_last() =~= entries.drop_last());
        assert(entries_map(changed) =~= entries_map(entries).insert(name, value));
    }
}

/// Appending an entry is inserting it.
pub proof fn lemma_append<T>(entries: Seq<(Seq<char>, T)>, name: Seq<char>, value: T)
    ensures
        entries_map(entries.push((name, value))) == entries_map(entries).insert(name, value),
{
    assert(entries.push((name, value)).drop_last() =~= entries);
}

/// The map of a list is finite.
pub proof fn lemma_finite<T>(entries: Seq<(Seq<char>, T)>)
    ensures
        entries_map(entries).dom().finite(),
    decreases entries.len(),
{
    if entries.len() > 0 {
        lemma_finite(entries.drop_last());
    }
}

/// The names and values of a list of entries.
pub open spec fn named<V>(entries: Seq<(String, V)>) -> Seq<(Seq<char>, V)> {
    entries.map_values(|e: (String, V)| (e.0@, e.1))
}

/// The position of the last entry named `name`.
pub fn find_entry<V>(entries: &Vec<(String, V)>, name: &str) -> (r: Option<usize>)
    ensures
        match r {
            Some(i) => last_named(named(entries@), name@, i as int),
            None => unnamed(named(entries@), name@),
        },
{
    let mut i: usize = entries.len();
    while i > 0
        invariant
            i <= entries@.len(),
            forall|j: int| i <= j < entries@.len() ==> named(entries@)[j].0 != name@,
        decreases i,
    {
        i -= 1;
        if str_eq(entries[i].0.as_str(), name) {
            return Some(i);
        }
    }
    None
}

/// `after` is `before` with `value` put under `name`: in place of the last entry with that
/// name, or at the end if there is none.
pub open spec fn placed<V>(
    before: Seq<(String, V)>,
    after: Seq<(String, V)>,
    name: String,
    value: V,
) -> bool {
    ||| exists|i: int|
        {
            &&& #[trigger] last_named(named(before), name@, i)
            &&& after == before.update(i, (name, value))
        }
    ||| unnamed(named(before), name@) && after == before.push((name, value))
}

/// The names of a list of entries, and what `f` makes of the values.
pub open spec fn viewed<V, T>(entries: Seq<(String, V)>, f: spec_fn(V) -> T) -> Seq<
    (Seq<char>, T),
> {
    Seq::new(entries.len(), |i: int| (entries[i].0@, f(entries[i].1)))
}

/// Putting an entry in its place is inserting it, whatever is seen of the values.
pub proof fn lemma_placed<V, T>(
    before: Seq<(String, V)>,
    after: Seq<(String, V)>,
    name: String,
    value: V,
    f: spec_fn(V) -> T,
)
    requires
        placed(before, after, name, value),
    ensures
        entries_map(viewed(after, f)) == entries_map(viewed(before, f)).insert(name@, f(value)),
{
    let seen = viewed(before, f);
    assert forall|j: int| 0 <= j < before.len() implies named(before)[j].0 == seen[j].0 by {}
    if unnamed(named(before), name@) && after == before.push((name, value)) {
        lemma_append(seen, name@, f(value));
        assert(viewed(after, f) =~= seen.push((name@, f(value))));
    } else {
        let i = choose|i: int|
            {
                &&& #[trigger] last_named(named(before), name@, i)
                &&& after == before.update(i, (name, value))
            };
        assert(last_named(seen, name@, i));
        lemma_replace(seen, name@, i, f(value));
        assert(viewed(after, f) =~= seen.update(i, (name@, f(value))));
    }
}

/// Looking a name up finds the same entry, whatever is seen of the values.
pub proof fn lemma_found<V, T>(
    entries: Seq<(String, V)>,
    name: Seq<char>,
    found: Option<usize>,
    f: spec_fn(V) -> T,
)
    requires
        match found {
            Some(i) => last_named(named(entries), name, i as int),
            None => unnamed(named(entries), name),
        },
    ensures
        match found {
            Some(i) => {
                &&& entries_map(viewed(entries, f)).contains_key(name)
                &&& entries_map(viewed(entries, f))[name] == f(entries[i as int].1)
            },
            None => !entries_map(viewed(entries, f)).contains_key(name),
        },
{
    let seen = viewed(entries, f);
    assert forall|j: int| 0 <= j < entries.len() implies named(entries)[j].0 == seen[j].0 by {}
    match found {
        Some(i) => {
            assert(last_named(seen, name, i as int));
            lemma_lookup(seen, name, i as int);
        },
        None => {
            assert(unnamed(seen, name));
            lemma_absent(seen, name);
        },
    }
}

/// Puts `value` under `name`: in place of the last entry with that name, or at the end if
/// there is none.
pub fn insert_entry<V>(entries: &mut Vec<(String, V)>, name: String, value: V)
    ensures
        placed(old(entries)@, final(entries)@, name, value),
        entries_map(named(final(entries)@)) == entries_map(named(old(entries)@)).insert(
            name@,
            value,
        ),
        distinct(named(old(entries)@)) ==> distinct(named(final(entries)@)),
{
    let ghost before = named(entries@);
    match find_entry(entries, name.as_str()) {
        Some(i) => {
            proof {
                lemma_replace(before, name@, i as int, value);
            }
            entries.set(i, (name, value));
            assert(named(entries@) =~= before.update(i as int, (name@, value)));
        },
        None => {
            proof {
                lemma_append(before, name@, value);
            }
            entries.push((name, value));
            assert(named(entries@) =~= before.push((name@, value)));
        },
    }
}

}
