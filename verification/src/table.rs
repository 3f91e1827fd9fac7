//! Tables of named entries, kept as vectors of pairs in the order in which
//! the names were first entered. The first entry of a name is the one that
//! counts.

use vstd::prelude::*;
use crate::text::same_str;

verus! {

/// The names of the entries, in order.
pub open spec fn names<T>(entries: Seq<(String, T)>) -> Seq<Seq<char>> {
    Seq::new(entries.len(), |i: int| entries[i].0@)
}

/// The index of the first occurrence of `name`.
pub open spec fn position_of(names: Seq<Seq<char>>, name: Seq<char>) -> Option<int>
    decreases names.len(),
{
    if names.len() == 0 {
        None
    } else if names[0] == name {
        Some(0)
    } else {
        match position_of(names.drop_first(), name) {
            Some(i) => Some(i + 1),
            None => None,
        }
    }
}

/// Whether some entry has the name.
pub open spec fn contains_name(names: Seq<Seq<char>>, name: Seq<char>) -> bool {
    position_of(names, name) is Some
}

/// The table as a map from each name to the value of its first entry.
pub open spec fn as_map<V>(names: Seq<Seq<char>>, values: Seq<V>) -> Map<Seq<char>, V> {
    Map::new(|k: Seq<char>| contains_name(names, k), |k: Seq<char>| values[position_of(names, k)->0])
}

pub proof fn lemma_position_of(names: Seq<Seq<char>>, name: Seq<char>)
    ensures
        match position_of(names, name) {
            Some(i) => 0 <= i < names.len() && names[i] == name && forall|k: int|
                0 <= k < i ==> #[trigger] names[k] != name,
            None => forall|k: int| 0 <= k < names.len() ==> #[trigger] names[k] != name,
        },
    decreases names.len(),
{
    if names.len() > 0 && names[0] != name {
        let rest = names.drop_first();
        lemma_position_of(rest, name);
        match position_of(rest, name) {
            Some(i) => {
                assert forall|k: int| 0 <= k < i + 1 implies #[trigger] names[k] != name by {
                    if k > 0 {
                        assert(rest[k - 1] == names[k]);
                    }
                }
            },
            None => {
                assert forall|k: int| 0 <= k < names.len() implies #[trigger] names[k] != name by {
                    if k > 0 {
                        assert(rest[k - 1] == names[k]);
                    }
                }
            },
        }
    }
}

/// The first index that holds the name is its position.
pub proof fn lemma_position_is(names: Seq<Seq<char>>, name: Seq<char>, i: int)
    requires
        0 <= i < names.len(),
        names[i] == name,
        forall|k: int| 0 <= k < i ==> #[trigger] names[k] != name,
    ensures
        position_of(names, name) == Some(i),
{
    lemma_position_of(names, name);
}

/// A name that no index holds has no position.
pub proof fn lemma_position_none(names: Seq<Seq<char>>, name: Seq<char>)
    requires
        forall|k: int| 0 <= k < names.len() ==> #[trigger] names[k] != name,
    ensures
        position_of(names, name) is None,
{
    lemma_position_of(names, name);
}

/// Positions after one more name is entered at the end.
pub proof fn lemma_position_push(names: Seq<Seq<char>>, added: Seq<char>, name: Seq<char>)
    ensures
        position_of(names.push(added), name) == (match position_of(names, name) {
            Some(i) => Some(i),
            None => if name == added {
                Some(names.len() as int)
            } else {
                None
            },
        }),
{
    let longer = names.push(added);
    lemma_position_of(names, name);
    lemma_position_of(longer, name);
    match position_of(names, name) {
        Some(i) => {
            assert(longer[i] == names[i]);
            assert forall|k: int| 0 <= k < i implies #[trigger] longer[k] != name by {
                assert(longer[k] == names[k]);
            }
            lemma_position_is(longer, name, i);
        },
        None => {
            if name == added {
                assert forall|k: int| 0 <= k < names.len() implies #[trigger] longer[k] != name by {
                    assert(longer[k] == names[k]);
                }
                lemma_position_is(longer, name, names.len() as int);
            } else {
                assert forall|k: int| 0 <= k < longer.len() implies #[trigger] longer[k] != name by {
                    if k < names.len() {
                        assert(longer[k] == names[k]);
                    }
                }
                lemma_position_none(longer, name);
            }
        },
    }
}

/// The map of a table is the map of the entries behind the first one, with
/// the first entry entered.
pub proof fn lemma_map_front<T>(entries: Seq<(String, T)>)
    requires
        entries.len() > 0,
    ensures
        table_map(entries) == table_map(entries.drop_first()).insert(entries[0].0@, entries[0].1),
{
    let rest = entries.drop_first();
    let goal = table_map(rest).insert(entries[0].0@, entries[0].1);
    assert(names(rest) =~= names(entries).drop_first());
    assert forall|k: Seq<char>| table_map(entries).dom().contains(k) implies #[trigger] table_map(
        entries,
    )[k] == goal[k] by {
        lemma_position_of(names(rest), k);
        if names(entries)[0] != k {
            let i = position_of(names(rest), k)->0;
            assert(values_of(entries)[i + 1] == values_of(rest)[i]);
        }
    }
    assert(table_map(entries).dom() =~= goal.dom());
    assert(table_map(entries) =~= goal);
}

/// Entering a name that the table lacks, at the end, inserts it in the map.
pub proof fn lemma_map_push<V>(names: Seq<Seq<char>>, values: Seq<V>, added: Seq<char>, value: V)
    requires
        names.len() == values.len(),
        !contains_name(names, added),
    ensures
        as_map(names.push(added), values.push(value)) == as_map(names, values).insert(added, value),
{
    let a = as_map(names.push(added), values.push(value));
    let b = as_map(names, values).insert(added, value);
    assert forall|k: Seq<char>| #[trigger] a.dom().contains(k) == b.dom().contains(k) by {
        lemma_position_push(names, added, k);
    }
    assert(a.dom() =~= b.dom());
    assert forall|k: Seq<char>| a.dom().contains(k) implies #[trigger] a[k] == b[k] by {
        lemma_position_push(names, added, k);
        lemma_position_of(names, k);
        if k != added {
            let i = position_of(names, k)->0;
            assert(values.push(value)[i] == values[i]);
        }
    }
    assert(a =~= b);
}

/// Replacing the value of the first entry of a name replaces it in the map.
pub proof fn lemma_map_update<V>(names: Seq<Seq<char>>, values: Seq<V>, name: Seq<char>, value: V)
    requires
        names.len() == values.len(),
        contains_name(names, name),
    ensures
        as_map(names, values.update(position_of(names, name)->0, value)) == as_map(
            names,
            values,
        ).insert(name, value),
{
    let i = position_of(names, name)->0;
    let a = as_map(names, values.update(i, value));
    let b = as_map(names, values).insert(name, value);
    lemma_position_of(names, name);
    assert forall|k: Seq<char>| #[trigger] a.dom().contains(k) == b.dom().contains(k) by {
    }
    assert(a.dom() =~= b.dom());
    assert forall|k: Seq<char>| a.dom().contains(k) implies #[trigger] a[k] == b[k] by {
        lemma_position_of(names, k);
    }
    assert(a =~= b);
}

/// The index of the first entry called `name`.
pub fn locate<T>(entries: &Vec<(String, T)>, name: &str) -> (r: Option<usize>)
    ensures
        match r {
            Some(i) => position_of(names(entries@), name@) == Some(i as int) && i < entries.len(),
            None => !contains_name(names(entries@), name@),
        },
{
    let ghost ns = names(entries@);
    let mut i: usize = 0;
    while i < entries.len()
        invariant
            i <= entries.len(),
            ns == names(entries@),
            forall|k: int| 0 <= k < i ==> #[trigger] ns[k] != name@,
        decreases entries.len() - i,
    {
        if same_str(entries[i].0.as_str(), name) {
            proof {
                lemma_position_is(ns, name@, i as int);
            }
            return Some(i);
        }
        i += 1;
    }
    proof {
        lemma_position_none(ns, name@);
    }
    None
}


/// The values of the entries, in order.
pub open spec fn values_of<T>(entries: Seq<(String, T)>) -> Seq<T> {
    Seq::new(entries.len(), |i: int| entries[i].1)
}

/// The table as a map from each name to the value of its first entry.
pub open spec fn table_map<T>(entries: Seq<(String, T)>) -> Map<Seq<char>, T> {
    as_map(names(entries), values_of(entries))
}

/// `items` with `item` in the place of the first entry called `name`, or at
/// the end where no entry is called so; `names` are the names of the
/// entries.
pub open spec fn placed<A>(names: Seq<Seq<char>>, items: Seq<A>, name: Seq<char>, item: A) -> Seq<A> {
    match position_of(names, name) {
        Some(i) => items.update(i, item),
        None => items.push(item),
    }
}

/// The value of the first entry called `name`.
pub fn get<'a, T>(entries: &'a Vec<(String, T)>, name: &str) -> (r: Option<&'a T>)
    ensures
        match r {
            Some(v) => table_map(entries@).contains_key(name@) && table_map(entries@)[name@] == *v,
            None => !table_map(entries@).contains_key(name@),
        },
{
    match locate(entries, name) {
        Some(i) => Some(&entries[i].1),
        None => None,
    }
}

/// Whether some entry is called `name`.
pub fn contains<T>(entries: &Vec<(String, T)>, name: &str) -> (b: bool)
    ensures
        b == table_map(entries@).contains_key(name@),
{
    locate(entries, name).is_some()
}

/// Gives `name` the value `value`: in place of the value of its first entry
/// or, where no entry has the name, as a new last entry.
pub fn put<T>(entries: &mut Vec<(String, T)>, name: String, value: T)
    ensures
        table_map(final(entries)@) == table_map(old(entries)@).insert(name@, value),
        names(final(entries)@) == placed(names(old(entries)@), names(old(entries)@), name@, name@),
        values_of(final(entries)@) == placed(names(old(entries)@), values_of(old(entries)@), name@, value),
{
    let ghost ns = names(entries@);
    let ghost vs = values_of(entries@);
    match locate(entries, name.as_str()) {
        Some(i) => {
            entries.set(i, (name, value));
            proof {
                lemma_position_of(ns, name@);
                assert(names(entries@) =~= ns);
                assert(ns.update(i as int, name@) =~= ns);
                assert(values_of(entries@) =~= vs.update(i as int, value));
                lemma_map_update(ns, vs, name@, value);
            }
        },
        None => {
            entries.push((name, value));
            proof {
                assert(names(entries@) =~= ns.push(name@));
                assert(values_of(entries@) =~= vs.push(value));
                lemma_map_push(ns, vs, name@, value);
            }
        },
    }
}

/// Enters `name` with `value` as a new last entry where no entry has the
/// name, and says whether it did.
pub fn put_new<T>(entries: &mut Vec<(String, T)>, name: String, value: T) -> (added: bool)
    ensures
        added == !table_map(old(entries)@).contains_key(name@),
        table_map(final(entries)@) == (if added {
            table_map(old(entries)@).insert(name@, value)
        } else {
            table_map(old(entries)@)
        }),
{
    let ghost ns = names(entries@);
    let ghost vs = values_of(entries@);
    if contains(entries, name.as_str()) {
        false
    } else {
        entries.push((name, value));
        proof {
            assert(names(entries@) =~= ns.push(name@));
            assert(values_of(entries@) =~= vs.push(value));
            lemma_map_push(ns, vs, name@, value);
        }
        true
    }
}

/// The map `own` with the first `upto` entries of `entries` entered, each
/// only where its name was not in the map yet.
pub open spec fn filled<T>(own: Map<Seq<char>, T>, entries: Seq<(String, T)>, upto: int) -> Map<
    Seq<char>,
    T,
>
    decreases upto,
{
    if upto <= 0 || upto > entries.len() {
        own
    } else {
        let before = filled(own, entries, upto - 1);
        let entry = entries[upto - 1];
        if before.contains_key(entry.0@) {
            before
        } else {
            before.insert(entry.0@, entry.1)
        }
    }
}

/// Entering all entries of a table where their names are missing gives the
/// union of the two maps, in which the map that was there wins.
pub proof fn lemma_filled<T>(own: Map<Seq<char>, T>, entries: Seq<(String, T)>, upto: int)
    requires
        0 <= upto <= entries.len(),
    ensures
        filled(own, entries, upto) == table_map(entries.take(upto)).union_prefer_right(own),
    decreases upto,
{
    let part = entries.take(upto);
    let goal = table_map(part).union_prefer_right(own);
    if upto == 0 {
        assert(names(part) =~= Seq::<Seq<char>>::empty());
        assert(table_map(part) =~= Map::<Seq<char>, T>::empty());
        assert(goal =~= own);
    } else {
        lemma_filled(own, entries, upto - 1);
        let shorter = entries.take(upto - 1);
        let entry = entries[upto - 1];
        let before = filled(own, entries, upto - 1);
        assert(names(part) =~= names(shorter).push(entry.0@));
        assert(values_of(part) =~= values_of(shorter).push(entry.1));
        let now = filled(own, entries, upto);
        assert forall|k: Seq<char>| #[trigger] now.dom().contains(k) == goal.dom().contains(k) by {
            lemma_position_push(names(shorter), entry.0@, k);
        }
        assert(now.dom() =~= goal.dom());
        assert forall|k: Seq<char>| now.dom().contains(k) implies #[trigger] now[k] == goal[k] by {
            lemma_position_push(names(shorter), entry.0@, k);
            lemma_position_of(names(shorter), k);
            if !own.dom().contains(k) {
                if contains_name(names(shorter), k) {
                    let i = position_of(names(shorter), k)->0;
                    assert(values_of(part)[i] == values_of(shorter)[i]);
                }
            }
        }
        assert(now =~= goal);
    }
}

} // verus!
