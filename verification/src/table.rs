//! Tables keyed by text, kept as vectors of entries: in the order of their keys, or
//! in the order in which the keys were stored.

use vstd::prelude::*;
use crate::text::{
    before, is_before, lemma_before_asymmetric, lemma_before_total, lemma_before_transitive, same,
};

verus! {

/// The entries of a table, keys taken as text.
pub open spec fn keyed<V>(entries: Seq<(String, V)>) -> Seq<(Seq<char>, V)> {
    entries.map_values(|e: (String, V)| (e.0@, e.1))
}

/// The keys of a table, in its order.
pub open spec fn keys<V>(entries: Seq<(Seq<char>, V)>) -> Seq<Seq<char>> {
    entries.map_values(|e: (Seq<char>, V)| e.0)
}

/// Whether the keys are in strictly increasing order, so that none occurs twice.
pub open spec fn sorted<V>(entries: Seq<(Seq<char>, V)>) -> bool {
    forall|i: int, j: int|
        0 <= i < j < entries.len() ==> before(#[trigger] entries[i].0, #[trigger] entries[j].0)
}

/// The first position of `key` among `all` at or after `from`.
pub open spec fn position_from(all: Seq<Seq<char>>, key: Seq<char>, from: nat) -> Option<nat>
    decreases all.len() - from,
{
    if from >= all.len() {
        None
    } else if all[from as int] == key {
        Some(from)
    } else {
        position_from(all, key, from + 1)
    }
}

/// The position from which on `key` or a later key stands.
pub open spec fn slot_from(all: Seq<Seq<char>>, key: Seq<char>, from: nat) -> nat
    decreases all.len() - from,
{
    if from >= all.len() {
        all.len()
    } else if all[from as int] == key || before(key, all[from as int]) {
        from
    } else {
        slot_from(all, key, from + 1)
    }
}

/// The value stored under `key`.
pub open spec fn lookup<V>(entries: Seq<(Seq<char>, V)>, key: Seq<char>) -> Option<V> {
    match position_from(keys(entries), key, 0) {
        Some(i) => Some(entries[i as int].1),
        None => None,
    }
}

/// The table with `value` stored under `key`: in place of what stood there, or
/// as a new entry before the first later key.
pub open spec fn inserted<V>(entries: Seq<(Seq<char>, V)>, key: Seq<char>, value: V) -> Seq<
    (Seq<char>, V),
> {
    let i = slot_from(keys(entries), key, 0) as int;
    if i < entries.len() && entries[i].0 == key {
        entries.update(i, (key, value))
    } else {
        entries.insert(i, (key, value))
    }
}

/// The entries with `value` stored under `key`: in place of what stood there, or
/// behind all others.
pub open spec fn stored<V>(entries: Seq<(Seq<char>, V)>, key: Seq<char>, value: V) -> Seq<
    (Seq<char>, V),
> {
    match position_from(keys(entries), key, 0) {
        Some(i) => entries.update(i as int, (key, value)),
        None => entries.push((key, value)),
    }
}

/// [`position_from`] is the first position of the key, and nothing exactly when
/// the key does not occur.
pub proof fn lemma_position_from(all: Seq<Seq<char>>, key: Seq<char>, from: nat)
    ensures
        position_from(all, key, from) matches Some(i) ==> from <= i < all.len() && all[i as int]
            == key && (forall|j: int| from <= j < i ==> all[j] != key),
        position_from(all, key, from) is None ==> forall|j: int|
            from <= j < all.len() ==> all[j] != key,
    decreases all.len() - from,
{
    if from < all.len() && all[from as int] != key {
        lemma_position_from(all, key, from + 1);
    }
}

/// [`slot_from`] is the first position at which the key or a later one stands.
pub proof fn lemma_slot_from(all: Seq<Seq<char>>, key: Seq<char>, from: nat)
    requires
        from <= all.len(),
    ensures
        from <= slot_from(all, key, from) <= all.len(),
        ({
            let i = slot_from(all, key, from) as int;
            &&& i < all.len() ==> all[i] == key || before(key, all[i])
            &&& forall|j: int| from <= j < i ==> all[j] != key && !before(key, #[trigger] all[j])
        }),
    decreases all.len() - from,
{
    if from < all.len() && !(all[from as int] == key || before(key, all[from as int])) {
        lemma_slot_from(all, key, from + 1);
    }
}

/// A lookup after an insertion gives the inserted value for the inserted key
/// and what was there before for any other key.
pub proof fn lemma_lookup_inserted<V>(
    entries: Seq<(Seq<char>, V)>,
    key: Seq<char>,
    value: V,
    other: Seq<char>,
)
    ensures
        lookup(inserted(entries, key, value), other) == (if other == key {
            Some(value)
        } else {
            lookup(entries, other)
        }),
{
    let all = keys(entries);
    lemma_slot_from(all, key, 0);
    let i = slot_from(all, key, 0) as int;
    let new = inserted(entries, key, value);
    let new_all = keys(new);
    lemma_position_from(all, other, 0);
    lemma_position_from(new_all, other, 0);
    if other == key {
        assert(new_all[i] == key);
        let p = position_from(new_all, other, 0)->0 as int;
        if p < i {
            assert(new_all[p] == all[p]);
        }
    } else if i < entries.len() && entries[i].0 == key {
        assert(forall|j: int| 0 <= j < all.len() ==> new_all[j] == all[j]);
        match position_from(all, other, 0) {
            Some(p) => {
                assert(new_all[p as int] == other);
                let q = position_from(new_all, other, 0)->0;
                assert(all[q as int] == other);
            },
            None => {},
        }
    } else {
        assert(forall|j: int| 0 <= j < i ==> new_all[j] == all[j]);
        assert(forall|j: int| i < j < new_all.len() ==> #[trigger] new_all[j] == all[j - 1]);
        match position_from(all, other, 0) {
            Some(p) => {
                let shifted = if p < i {
                    p as int
                } else {
                    p as int + 1
                };
                assert(new_all[shifted] == other);
                let q = position_from(new_all, other, 0)->0 as int;
                if q < i {
                    assert(all[q] == other);
                } else {
                    assert(all[q - 1] == other);
                }
            },
            None => {
                if position_from(new_all, other, 0) is Some {
                    let q = position_from(new_all, other, 0)->0 as int;
                    if q < i {
                        assert(all[q] == other);
                    } else if q > i {
                        assert(all[q - 1] == other);
                    }
                }
            },
        }
    }
}

/// A lookup after a value was stored gives that value for its key and what was
/// there before for any other key.
pub proof fn lemma_lookup_stored<V>(
    entries: Seq<(Seq<char>, V)>,
    key: Seq<char>,
    value: V,
    other: Seq<char>,
)
    ensures
        lookup(stored(entries, key, value), other) == (if other == key {
            Some(value)
        } else {
            lookup(entries, other)
        }),
{
    let all = keys(entries);
    let new = stored(entries, key, value);
    let new_all = keys(new);
    lemma_position_from(all, key, 0);
    lemma_position_from(all, other, 0);
    lemma_position_from(new_all, other, 0);
    assert(forall|j: int| 0 <= j < all.len() ==> new_all[j] == all[j]);
    if position_from(all, key, 0) is None {
        assert(new_all[all.len() as int] == key);
    }
    if position_from(new_all, other, 0) is Some {
        let q = position_from(new_all, other, 0)->0 as int;
        assert(q < all.len() ==> all[q] == other);
    }
    if position_from(all, other, 0) is Some {
        let p = position_from(all, other, 0)->0 as int;
        assert(new_all[p] == other);
    }
}

/// Whether no key occurs twice.
pub open spec fn distinct<V>(entries: Seq<(Seq<char>, V)>) -> bool {
    keys(entries).no_duplicates()
}

/// Storing a value leaves the keys where they stand and adds at most its own, behind
/// them.
pub proof fn lemma_stored_keys<V>(entries: Seq<(Seq<char>, V)>, key: Seq<char>, value: V)
    ensures
        keys(stored(entries, key, value)) == (if keys(entries).contains(key) {
            keys(entries)
        } else {
            keys(entries).push(key)
        }),
        distinct(entries) ==> distinct(stored(entries, key, value)),
{
    lemma_position_from(keys(entries), key, 0);
    assert(keys(stored(entries, key, value)) =~= (if keys(entries).contains(key) {
        keys(entries)
    } else {
        keys(entries).push(key)
    }));
}

/// Insertion keeps the order of the keys.
pub proof fn lemma_sorted_inserted<V>(entries: Seq<(Seq<char>, V)>, key: Seq<char>, value: V)
    requires
        sorted(entries),
    ensures
        sorted(inserted(entries, key, value)),
{
    let all = keys(entries);
    lemma_slot_from(all, key, 0);
    let i = slot_from(all, key, 0) as int;
    let new = inserted(entries, key, value);
    assert forall|a: int, b: int| 0 <= a < b < new.len() implies before(
        #[trigger] new[a].0,
        #[trigger] new[b].0,
    ) by {
        if i < entries.len() && entries[i].0 == key {
            assert(new[a].0 == entries[a].0);
            assert(new[b].0 == entries[b].0);
        } else {
            if b < i {
            } else if b == i {
                assert(new[a].0 == all[a]);
                lemma_before_total(all[a], key);
            } else if a == i {
                assert(new[b].0 == all[b - 1]);
                if b - 1 > i {
                    assert(entries[i].0 == all[i]);
                    lemma_before_transitive(key, entries[i].0, entries[b - 1].0);
                }
            } else if a < i {
                assert(new[b].0 == entries[b - 1].0);
            } else {
                assert(new[a].0 == entries[a - 1].0);
                assert(new[b].0 == entries[b - 1].0);
            }
        }
    }
}

/// Finds the first entry with the given key.
pub fn find_key<V>(entries: &Vec<(String, V)>, key: &str) -> (r: Option<usize>)
    ensures
        match r {
            Some(i) => i < entries@.len() && position_from(keys(keyed(entries@)), key@, 0) == Some(
                i as nat,
            ) && entries@[i as int].0@ == key@,
            None => position_from(keys(keyed(entries@)), key@, 0) is None,
        },
{
    let mut i: usize = 0;
    while i < entries.len()
        invariant
            i <= entries@.len(),
            position_from(keys(keyed(entries@)), key@, 0) == position_from(
                keys(keyed(entries@)),
                key@,
                i as nat,
            ),
        decreases entries.len() - i,
    {
        if same(entries[i].0.as_str(), key) {
            return Some(i);
        }
        i += 1;
    }
    None
}

/// Whether the table holds the given key.
pub fn has_key<V>(entries: &Vec<(String, V)>, key: &str) -> (r: bool)
    ensures
        r == (lookup(keyed(entries@), key@) is Some),
{
    match find_key(entries, key) {
        Some(_) => true,
        None => false,
    }
}

/// The value stored under the given key.
pub fn get<'a, V>(entries: &'a Vec<(String, V)>, key: &str) -> (r: Option<&'a V>)
    ensures
        match r {
            Some(v) => lookup(keyed(entries@), key@) == Some(*v),
            None => lookup(keyed(entries@), key@) is None,
        },
{
    match find_key(entries, key) {
        Some(i) => Some(&entries[i].1),
        None => None,
    }
}

/// Stores a value under a key.
pub fn insert<V>(entries: &mut Vec<(String, V)>, key: String, value: V)
    ensures
        keyed(final(entries)@) == inserted(keyed(old(entries)@), key@, value),
{
    let ghost all = keys(keyed(entries@));
    let mut i: usize = 0;
    while i < entries.len() && !same(entries[i].0.as_str(), key.as_str()) && !is_before(
        key.as_str(),
        entries[i].0.as_str(),
    )
        invariant
            i <= entries@.len(),
            all == keys(keyed(entries@)),
            slot_from(all, key@, 0) == slot_from(all, key@, i as nat),
        decreases entries.len() - i,
    {
        i += 1;
    }
    let ghost before_entries = entries@;
    let ghost text = key@;
    if i < entries.len() && same(entries[i].0.as_str(), key.as_str()) {
        entries.remove(i);
        entries.insert(i, (key, value));
        assert(keyed(entries@) =~= keyed(before_entries).update(i as int, (text, value)));
    } else {
        entries.insert(i, (key, value));
        assert(keyed(entries@) =~= keyed(before_entries).insert(i as int, (text, value)));
    }
}

/// Stores a value under a key, behind the other entries where the key is new.
pub fn store<V>(entries: &mut Vec<(String, V)>, key: String, value: V)
    ensures
        keyed(final(entries)@) == stored(keyed(old(entries)@), key@, value),
{
    let ghost was = entries@;
    let ghost text = key@;
    match find_key(entries, key.as_str()) {
        Some(i) => {
            entries.remove(i);
            entries.insert(i, (key, value));
            assert(keyed(entries@) =~= keyed(was).update(i as int, (text, value)));
        },
        None => {
            entries.push((key, value));
            assert(keyed(entries@) =~= keyed(was).push((text, value)));
        },
    }
}

// ---------------------------------------------------------------------------
// Sorting
// ---------------------------------------------------------------------------

/// The position behind the last entry of an ordered list whose key does not
/// come after `key`.
pub open spec fn place<V>(ordered: Seq<(Seq<char>, V)>, key: Seq<char>) -> nat
    decreases ordered.len(),
{
    if ordered.len() == 0 {
        0
    } else if before(key, ordered.last().0) {
        place(ordered.drop_last(), key)
    } else {
        ordered.len()
    }
}

/// The entries in the order of their keys, entries of equal keys in the order
/// they had.
pub open spec fn ordered<V>(entries: Seq<(Seq<char>, V)>) -> Seq<(Seq<char>, V)>
    decreases entries.len(),
{
    if entries.len() == 0 {
        Seq::empty()
    } else {
        let head = ordered(entries.drop_last());
        head.insert(place(head, entries.last().0) as int, entries.last())
    }
}

/// Whether no key comes before the key of an earlier entry.
pub open spec fn in_order<V>(entries: Seq<(Seq<char>, V)>) -> bool {
    forall|i: int, j: int|
        0 <= i < j < entries.len() ==> !before(#[trigger] entries[j].0, #[trigger] entries[i].0)
}

/// Everything from [`place`] on comes after the key, and nothing before it does.
pub proof fn lemma_place<V>(list: Seq<(Seq<char>, V)>, key: Seq<char>)
    ensures
        place(list, key) <= list.len(),
        forall|i: int| place(list, key) <= i < list.len() ==> before(key, #[trigger] list[i].0),
        place(list, key) > 0 ==> !before(key, list[place(list, key) - 1].0),
    decreases list.len(),
{
    if list.len() > 0 && before(key, list.last().0) {
        let head = list.drop_last();
        lemma_place(head, key);
        assert forall|i: int| place(list, key) <= i < list.len() implies before(
            key,
            #[trigger] list[i].0,
        ) by {
            if i < head.len() {
                assert(head[i] == list[i]);
            }
        }
        if place(head, key) > 0 {
            assert(head[place(head, key) - 1] == list[place(head, key) - 1]);
        }
    }
}

/// [`ordered`] puts the entries in order, and neither loses nor adds any.
pub proof fn lemma_ordered<V>(entries: Seq<(Seq<char>, V)>)
    ensures
        in_order(ordered(entries)),
        ordered(entries).len() == entries.len(),
        ordered(entries).to_multiset() == entries.to_multiset(),
    decreases entries.len(),
{
    broadcast use vstd::seq_lib::group_to_multiset_ensures;

    if entries.len() > 0 {
        let head = ordered(entries.drop_last());
        let last = entries.last();
        lemma_ordered(entries.drop_last());
        lemma_place(head, last.0);
        let p = place(head, last.0) as int;
        let new = head.insert(p, last);
        assert forall|i: int, j: int| 0 <= i < j < new.len() implies !before(
            #[trigger] new[j].0,
            #[trigger] new[i].0,
        ) by {
            if j == p {
                assert(new[i] == head[i]);
                assert(new[j] == last);
                assert(!before(last.0, head[p - 1].0));
                if i < p - 1 {
                    assert(!before(head[p - 1].0, head[i].0));
                    if before(last.0, head[i].0) {
                        lemma_before_total(head[i].0, head[p - 1].0);
                        if before(head[i].0, head[p - 1].0) {
                            lemma_before_transitive(last.0, head[i].0, head[p - 1].0);
                        }
                    }
                }
            } else if i == p {
                assert(new[i] == last);
                assert(new[j] == head[j - 1]);
                assert(before(last.0, head[j - 1].0));
                lemma_before_asymmetric(last.0, head[j - 1].0);
            } else {
                let a = if i < p {
                    i
                } else {
                    i - 1
                };
                let b = if j < p {
                    j
                } else {
                    j - 1
                };
                assert(new[i] == head[a]);
                assert(new[j] == head[b]);
            }
        }
        assert(entries =~= entries.drop_last().push(last));
        vstd::seq_lib::to_multiset_insert(head, p, last);
    } else {
        assert(ordered(entries) =~= entries);
    }
}

/// Entries that are in order stay where they are.
pub proof fn lemma_in_order_is_ordered<V>(entries: Seq<(Seq<char>, V)>)
    requires
        in_order(entries),
    ensures
        ordered(entries) == entries,
    decreases entries.len(),
{
    if entries.len() > 0 {
        let head = entries.drop_last();
        assert forall|i: int, j: int| 0 <= i < j < head.len() implies !before(
            #[trigger] head[j].0,
            #[trigger] head[i].0,
        ) by {
            assert(head[i] == entries[i]);
            assert(head[j] == entries[j]);
        }
        lemma_in_order_is_ordered(head);
        if head.len() > 0 {
            assert(head.last() == entries[entries.len() - 2]);
            assert(!before(entries[entries.len() - 1].0, entries[entries.len() - 2].0));
        }
        assert(place(head, entries.last().0) == head.len());
        assert(ordered(entries) =~= entries);
    } else {
        assert(ordered(entries) =~= entries);
    }
}

/// Puts entries in the order of their keys.
pub fn sort<V>(entries: Vec<(String, V)>) -> (r: Vec<(String, V)>)
    ensures
        keyed(r@) == ordered(keyed(entries@)),
{
    let mut rest = entries;
    let ghost all = keyed(rest@);
    let mut out: Vec<(String, V)> = Vec::new();
    let n: usize = rest.len();
    let mut done: usize = 0;
    assert(keyed(out@) =~= ordered(all.take(0)));
    assert(all.skip(0) =~= all);
    while done < n
        invariant
            done <= n,
            n == all.len(),
            keyed(rest@) == all.skip(done as int),
            keyed(out@) == ordered(all.take(done as int)),
        decreases n - done,
    {
        let ghost was_rest = rest@;
        assert(keyed(rest@).len() == n - done);
        assert(all.skip(done as int)[0] == all[done as int]);
        assert(keyed(rest@)[0] == (rest@[0].0@, rest@[0].1));
        let item = rest.remove(0);
        let ghost entry = (item.0@, item.1);
        assert(entry == all[done as int]);
        assert(keyed(rest@) =~= keyed(was_rest).skip(1));
        assert(all.skip(done as int).skip(1) =~= all.skip(done + 1));
        assert(all.take(done + 1).drop_last() =~= all.take(done as int));
        let ghost head = keyed(out@);
        let mut at: usize = out.len();
        assert(head.take(at as int) =~= head);
        while at > 0 && is_before(item.0.as_str(), out[at - 1].0.as_str())
            invariant
                at <= out@.len(),
                head == keyed(out@),
                entry == (item.0@, item.1),
                place(head, entry.0) == place(head.take(at as int), entry.0),
            decreases at,
        {
            assert(head.take(at as int).drop_last() =~= head.take(at - 1));
            assert(head.take(at as int).last() == (out@[at - 1].0@, out@[at - 1].1));
            at -= 1;
        }
        proof {
            if at > 0 {
                assert(head.take(at as int).last() == (out@[at - 1].0@, out@[at - 1].1));
            }
            assert(place(head, entry.0) == at);
        }
        let ghost was = out@;
        out.insert(at, item);
        assert(keyed(out@) =~= head.insert(at as int, entry));
        done += 1;
    }
    assert(all.take(n as int) =~= all);
    out
}

// ---------------------------------------------------------------------------
// Values taken by their meaning
// ---------------------------------------------------------------------------

/// The entries with a function applied to the values.
pub open spec fn mapped<V, W>(entries: Seq<(Seq<char>, V)>, f: spec_fn(V) -> W) -> Seq<
    (Seq<char>, W),
> {
    entries.map_values(|e: (Seq<char>, V)| (e.0, f(e.1)))
}

/// Storing a value and taking the values by their meaning can be swapped.
pub proof fn lemma_inserted_mapped<V, W>(
    entries: Seq<(Seq<char>, V)>,
    key: Seq<char>,
    value: V,
    f: spec_fn(V) -> W,
)
    ensures
        mapped(inserted(entries, key, value), f) == inserted(mapped(entries, f), key, f(value)),
{
    assert(keys(mapped(entries, f)) =~= keys(entries));
    lemma_slot_from(keys(entries), key, 0);
    assert(mapped(inserted(entries, key, value), f) =~= inserted(
        mapped(entries, f),
        key,
        f(value),
    ));
}

/// Looking a value up and taking it by its meaning can be swapped.
pub proof fn lemma_lookup_mapped<V, W>(
    entries: Seq<(Seq<char>, V)>,
    key: Seq<char>,
    f: spec_fn(V) -> W,
)
    ensures
        lookup(mapped(entries, f), key) == match lookup(entries, key) {
            Some(v) => Some(f(v)),
            None => None,
        },
{
    assert(keys(mapped(entries, f)) =~= keys(entries));
    lemma_position_from(keys(entries), key, 0);
}

proof fn lemma_place_mapped<V, W>(list: Seq<(Seq<char>, V)>, key: Seq<char>, f: spec_fn(V) -> W)
    ensures
        place(mapped(list, f), key) == place(list, key),
    decreases list.len(),
{
    if list.len() > 0 {
        assert(mapped(list, f).drop_last() =~= mapped(list.drop_last(), f));
        lemma_place_mapped(list.drop_last(), key, f);
    }
}

/// A lookup after a new key was put in anywhere.
proof fn lemma_lookup_put_in<V>(
    entries: Seq<(Seq<char>, V)>,
    i: int,
    entry: (Seq<char>, V),
    other: Seq<char>,
)
    requires
        0 <= i <= entries.len(),
        lookup(entries, entry.0) is None,
    ensures
        lookup(entries.insert(i, entry), other) == (if other == entry.0 {
            Some(entry.1)
        } else {
            lookup(entries, other)
        }),
{
    let all = keys(entries);
    let new = entries.insert(i, entry);
    let new_all = keys(new);
    lemma_position_from(all, entry.0, 0);
    lemma_position_from(all, other, 0);
    lemma_position_from(new_all, other, 0);
    assert(new_all[i] == entry.0);
    assert(forall|j: int| 0 <= j < i ==> new_all[j] == all[j]);
    assert(forall|j: int| i < j < new_all.len() ==> #[trigger] new_all[j] == all[j - 1]);
    assert(forall|j: int| i <= j < all.len() ==> all[j] == #[trigger] new_all[j + 1]);
    if position_from(all, other, 0) is Some {
        let p = position_from(all, other, 0)->0 as int;
        assert(new_all[if p < i {
            p
        } else {
            p + 1
        }] == other);
    }
    if position_from(new_all, other, 0) is Some {
        let q = position_from(new_all, other, 0)->0 as int;
        assert(q < i ==> all[q] == other);
        assert(q > i ==> all[q - 1] == other);
    }
}

/// Ordering entries of which no two have one key keeps what stands under each key.
pub proof fn lemma_lookup_ordered<V>(entries: Seq<(Seq<char>, V)>, key: Seq<char>)
    requires
        distinct(entries),
    ensures
        lookup(ordered(entries), key) == lookup(entries, key),
    decreases entries.len(),
{
    if entries.len() > 0 {
        let head = entries.drop_last();
        let last = entries.last();
        assert(keys(head) =~= keys(entries).drop_last());
        assert(distinct(head));
        lemma_position_from(keys(head), last.0, 0);
        if lookup(head, last.0) is Some {
            let p = position_from(keys(head), last.0, 0)->0 as int;
            assert(keys(entries)[p] == last.0);
            assert(keys(entries)[entries.len() - 1] == last.0);
        }
        lemma_lookup_ordered(head, key);
        lemma_lookup_ordered(head, last.0);
        lemma_place(ordered(head), last.0);
        lemma_lookup_put_in(ordered(head), place(ordered(head), last.0) as int, last, key);
        lemma_lookup_put_in(head, head.len() as int, last, key);
        assert(head.insert(head.len() as int, last) =~= entries);
    }
}

/// Ordering entries and taking their values by their meaning can be swapped.
pub proof fn lemma_ordered_mapped<V, W>(entries: Seq<(Seq<char>, V)>, f: spec_fn(V) -> W)
    ensures
        mapped(ordered(entries), f) == ordered(mapped(entries, f)),
    decreases entries.len(),
{
    if entries.len() > 0 {
        let head = ordered(entries.drop_last());
        lemma_ordered_mapped(entries.drop_last(), f);
        lemma_place(head, entries.last().0);
        lemma_place_mapped(head, entries.last().0, f);
        assert(mapped(entries, f).drop_last() =~= mapped(entries.drop_last(), f));
        assert(mapped(ordered(entries), f) =~= ordered(mapped(entries, f)));
    } else {
        assert(mapped(ordered(entries), f) =~= ordered(mapped(entries, f)));
    }
}

/// A table of texts.
pub open spec fn text_table(entries: Seq<(String, String)>) -> Seq<(Seq<char>, Seq<char>)> {
    entries.map_values(|e: (String, String)| (e.0@, e.1@))
}

proof fn lemma_text_table(entries: Seq<(String, String)>)
    ensures
        text_table(entries) == mapped(keyed(entries), |v: String| v@),
{
    assert(text_table(entries) =~= mapped(keyed(entries), |v: String| v@));
}

/// Stores a text under a key.
pub fn insert_text(entries: &mut Vec<(String, String)>, key: String, value: String)
    ensures
        text_table(final(entries)@) == inserted(text_table(old(entries)@), key@, value@),
{
    proof {
        lemma_text_table(entries@);
        lemma_inserted_mapped(keyed(entries@), key@, value, |v: String| v@);
    }
    insert(entries, key, value);
    proof {
        lemma_text_table(entries@);
    }
}

/// The text stored under a key.
pub fn get_text<'a>(entries: &'a Vec<(String, String)>, key: &str) -> (r: Option<&'a String>)
    ensures
        match r {
            Some(v) => lookup(text_table(entries@), key@) == Some(v@),
            None => lookup(text_table(entries@), key@) is None,
        },
{
    proof {
        lemma_text_table(entries@);
        lemma_lookup_mapped(keyed(entries@), key@, |v: String| v@);
    }
    get(entries, key)
}

/// Takes the values out of entries, in their order.
pub fn into_values<V>(entries: Vec<(String, V)>) -> (r: Vec<V>)
    ensures
        r@ == entries@.map_values(|e: (String, V)| e.1),
{
    let ghost all = entries@;
    let ghost want = all.map_values(|e: (String, V)| e.1);
    let mut rest = entries;
    let mut out: Vec<V> = Vec::new();
    let n: usize = rest.len();
    let mut i: usize = 0;
    assert(all.skip(0) =~= all);
    assert(out@ =~= want.take(0));
    while i < n
        invariant
            i <= n,
            n == all.len(),
            want == all.map_values(|e: (String, V)| e.1),
            rest@ == all.skip(i as int),
            out@ == want.take(i as int),
        decreases n - i,
    {
        assert(rest@[0] == all[i as int]);
        let (_, value) = rest.remove(0);
        assert(rest@ =~= all.skip(i + 1));
        out.push(value);
        assert(want.take(i + 1) =~= want.take(i as int).push(want[i as int]));
        i += 1;
    }
    assert(want.take(want.len() as int) =~= want);
    out
}

} // verus!
