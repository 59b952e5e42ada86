//! JSON values.
//!
//! Objects keep their entries in the order of their keys. A number is an
//! unsigned or negative integer, or the bit pattern of a binary64 number.

use vstd::prelude::*;
use crate::table;
use crate::table::{inserted, keyed, keys, lookup, stored};

verus! {

/// A JSON number.
#[derive(Debug, Clone, Copy, PartialEq, Eq)]
pub enum Number {
    /// A non-negative integer.
    PosInt(u64),
    /// A negative integer.
    NegInt(i64),
    /// A number with a fraction or an exponent, by its binary64 bit pattern.
    Float { bits: u64 },
}

/// A JSON value.
#[derive(Debug, PartialEq, Eq)]
pub enum Value {
    /// `null`.
    Null,
    /// `true` or `false`.
    Bool(bool),
    /// A number.
    Number(Number),
    /// A string.
    String(String),
    /// An array.
    Array(Vec<Value>),
    /// An object, by its entries.
    Object(Vec<(String, Value)>),
}

/// What a [`Value`] means: strings are character sequences.
#[verifier::ext_equal]
pub enum Json {
    /// `null`.
    Null,
    /// `true` or `false`.
    Bool(bool),
    /// A number.
    Number(Number),
    /// A string.
    String(Seq<char>),
    /// An array.
    Array(Seq<Json>),
    /// An object, by its entries.
    Object(Seq<(Seq<char>, Json)>),
}

impl View for Value {
    type V = Json;

    open spec fn view(&self) -> Json
        decreases *self,
    {
        match *self {
            Value::Null => Json::Null,
            Value::Bool(b) => Json::Bool(b),
            Value::Number(n) => Json::Number(n),
            Value::String(s) => Json::String(s@),
            Value::Array(v) => Json::Array(
                Seq::new(
                    v@.len(),
                    |i: int|
                        if 0 <= i < v@.len() {
                            v@[i].view()
                        } else {
                            Json::Null
                        },
                ),
            ),
            Value::Object(v) => Json::Object(
                Seq::new(
                    v@.len(),
                    |i: int|
                        if 0 <= i < v@.len() {
                            (v@[i].0@, v@[i].1.view())
                        } else {
                            (Seq::empty(), Json::Null)
                        },
                ),
            ),
        }
    }
}

/// The meanings of a sequence of values.
pub open spec fn values(v: Seq<Value>) -> Seq<Json> {
    v.map_values(|x: Value| x@)
}

/// The meaning of the entries of an object.
pub open spec fn entries(v: Seq<(String, Value)>) -> Seq<(Seq<char>, Json)> {
    v.map_values(|e: (String, Value)| (e.0@, e.1@))
}

/// The meaning of an optional value.
pub open spec fn opt_value(v: Option<Value>) -> Option<Json> {
    match v {
        Some(x) => Some(x@),
        None => None,
    }
}

/// An array means the sequence of what its items mean.
pub broadcast proof fn lemma_array_view(v: Vec<Value>)
    ensures
        #[trigger] Value::Array(v)@ == Json::Array(values(v@)),
{
    reveal_with_fuel(<Value as View>::view, 2);
    assert(Value::Array(v)@->Array_0 =~= values(v@));
}

/// An object means the sequence of what its entries mean.
pub broadcast proof fn lemma_object_view(v: Vec<(String, Value)>)
    ensures
        #[trigger] Value::Object(v)@ == Json::Object(entries(v@)),
{
    reveal_with_fuel(<Value as View>::view, 2);
    assert(Value::Object(v)@->Object_0 =~= entries(v@));
}

/// What stands under a key means what the meaning holds under it.
pub proof fn lemma_lookup_view(v: Seq<(String, Value)>, key: Seq<char>)
    ensures
        lookup(entries(v), key) == opt_value(lookup(keyed(v), key)),
{
    assert(keys(entries(v)) =~= keys(keyed(v)));
    table::lemma_position_from(keys(keyed(v)), key, 0);
}

impl Value {
    /// A copy with the same meaning.
    pub fn copy(&self) -> (r: Value)
        ensures
            r@ == self@,
        decreases *self,
    {
        broadcast use {lemma_array_view, lemma_object_view};

        match self {
            Value::Null => Value::Null,
            Value::Bool(b) => Value::Bool(*b),
            Value::Number(n) => Value::Number(*n),
            Value::String(s) => Value::String(s.clone()),
            Value::Array(v) => {
                let mut out: Vec<Value> = Vec::new();
                let mut i: usize = 0;
                while i < v.len()
                    invariant
                        i <= v@.len(),
                        values(out@) == values(v@.take(i as int)),
                        decreases_to!(*self => v@),
                    decreases v.len() - i,
                {
                    assert(decreases_to!(v@ => v@[i as int]));
                    let item = v[i].copy();
                    let ghost was = values(out@);
                    out.push(item);
                    assert(values(out@) =~= was.push(v@[i as int]@));
                    assert(values(v@.take(i + 1)) =~= values(v@.take(i as int)).push(v@[i as int]@));
                    i += 1;
                }
                assert(v@.take(v@.len() as int) =~= v@);
                Value::Array(out)
            },
            Value::Object(v) => {
                let mut out: Vec<(String, Value)> = Vec::new();
                let mut i: usize = 0;
                while i < v.len()
                    invariant
                        i <= v@.len(),
                        entries(out@) == entries(v@.take(i as int)),
                        decreases_to!(*self => v@),
                    decreases v.len() - i,
                {
                    assert(decreases_to!(v@ => v@[i as int].1));
                    let item = v[i].1.copy();
                    let ghost was = entries(out@);
                    let ghost next = (v@[i as int].0@, v@[i as int].1@);
                    out.push((v[i].0.clone(), item));
                    assert(entries(out@) =~= was.push(next));
                    assert(entries(v@.take(i + 1)) =~= entries(v@.take(i as int)).push(next));
                    i += 1;
                }
                assert(v@.take(v@.len() as int) =~= v@);
                Value::Object(out)
            },
        }
    }

    /// The text of a string value.
    pub fn as_str(&self) -> (r: Option<&String>)
        ensures
            match r {
                Some(s) => self@ == Json::String(s@),
                None => !(self@ is String),
            },
    {
        match self {
            Value::String(s) => Some(s),
            _ => None,
        }
    }

    /// The entries of an object value.
    pub fn as_object(&self) -> (r: Option<&Vec<(String, Value)>>)
        ensures
            match r {
                Some(v) => self@ == Json::Object(entries(v@)),
                None => !(self@ is Object),
            },
    {
        broadcast use lemma_object_view;

        match self {
            Value::Object(v) => Some(v),
            _ => None,
        }
    }

}

impl Clone for Value {
    fn clone(&self) -> (r: Self)
        ensures
            r@ == self@,
    {
        self.copy()
    }
}

/// The value under a key of an object's entries.
pub fn get<'a>(object: &'a Vec<(String, Value)>, key: &str) -> (r: Option<&'a Value>)
    ensures
        match r {
            Some(v) => lookup(entries(object@), key@) == Some(v@),
            None => lookup(entries(object@), key@) is None,
        },
{
    proof {
        lemma_lookup_view(object@, key@);
    }
    table::get(object, key)
}

/// The text at a key, where there is one.
pub open spec fn text_at(object: Seq<(Seq<char>, Json)>, key: Seq<char>) -> Option<Seq<char>> {
    match lookup(object, key) {
        Some(Json::String(s)) => Some(s),
        _ => None,
    }
}

/// Stores a value under a key of a table that is kept in the order of its keys.
pub fn insert(object: &mut Vec<(String, Value)>, key: String, value: Value)
    ensures
        entries(final(object)@) == inserted(entries(old(object)@), key@, value@),
{
    let ghost was = object@;
    let ghost text = key@;
    let ghost new = value;
    table::insert(object, key, value);
    proof {
        let now = object@;
        assert(keys(entries(was)) =~= keys(keyed(was)));
        table::lemma_slot_from(keys(keyed(was)), text, 0);
        assert(entries(now) =~= keyed(now).map_values(|e: (Seq<char>, Value)| (e.0, e.1@)));
        assert(entries(was) =~= keyed(was).map_values(|e: (Seq<char>, Value)| (e.0, e.1@)));
        assert(entries(now) =~= inserted(entries(was), text, new@));
    }
}

/// Stores a value under a key of an object's entries.
pub fn store(object: &mut Vec<(String, Value)>, key: String, value: Value)
    ensures
        entries(final(object)@) == stored(entries(old(object)@), key@, value@),
{
    let ghost was = object@;
    let ghost text = key@;
    let ghost new = value;
    table::store(object, key, value);
    proof {
        let now = object@;
        assert(keys(entries(was)) =~= keys(keyed(was)));
        table::lemma_position_from(keys(keyed(was)), text, 0);
        assert(entries(now) =~= keyed(now).map_values(|e: (Seq<char>, Value)| (e.0, e.1@)));
        assert(entries(was) =~= keyed(was).map_values(|e: (Seq<char>, Value)| (e.0, e.1@)));
        assert(entries(now) =~= stored(entries(was), text, new@));
    }
}

/// Copies the entries of an object.
pub fn copy_entries(object: &Vec<(String, Value)>) -> (r: Vec<(String, Value)>)
    ensures
        entries(r@) == entries(object@),
{
    let mut out: Vec<(String, Value)> = Vec::new();
    let mut i: usize = 0;
    while i < object.len()
        invariant
            i <= object@.len(),
            entries(out@) == entries(object@.take(i as int)),
        decreases object.len() - i,
    {
        let item = object[i].1.copy();
        let ghost was = entries(out@);
        let ghost next = (object@[i as int].0@, object@[i as int].1@);
        out.push((object[i].0.clone(), item));
        assert(entries(out@) =~= was.push(next));
        assert(entries(object@.take(i + 1)) =~= entries(object@.take(i as int)).push(next));
        i += 1;
    }
    assert(object@.take(object@.len() as int) =~= object@);
    out
}

/// Copies an optional value.
pub fn copy_opt_value(v: &Option<Value>) -> (r: Option<Value>)
    ensures
        opt_value(r) == opt_value(*v),
{
    match v {
        Some(x) => Some(x.copy()),
        None => None,
    }
}

/// A string value holding the given literal or text.
pub fn string_value(s: &str) -> (r: Value)
    ensures
        r@ == Json::String(s@),
{
    Value::String(s.to_string())
}

/// The entries of an object into which the given ones are stored in turn.
pub open spec fn collected(pairs: Seq<(Seq<char>, Json)>) -> Seq<(Seq<char>, Json)>
    decreases pairs.len(),
{
    if pairs.len() == 0 {
        Seq::empty()
    } else {
        stored(collected(pairs.drop_last()), pairs.last().0, pairs.last().1)
    }
}

/// The object into which the given entries are stored in turn.
pub open spec fn object(pairs: Seq<(Seq<char>, Json)>) -> Json {
    Json::Object(collected(pairs))
}

/// The entries with one more where there is a value for it.
pub open spec fn with_some(
    pairs: Seq<(Seq<char>, Json)>,
    key: Seq<char>,
    value: Option<Json>,
) -> Seq<(Seq<char>, Json)> {
    match value {
        Some(v) => pairs.push((key, v)),
        None => pairs,
    }
}

/// One more entry is stored behind the others.
pub broadcast proof fn lemma_collected_push(
    pairs: Seq<(Seq<char>, Json)>,
    pair: (Seq<char>, Json),
)
    ensures
        #[trigger] collected(pairs.push(pair)) == stored(collected(pairs), pair.0, pair.1),
{
    assert(pairs.push(pair).drop_last() =~= pairs);
}

/// An optional text as an optional string value.
pub open spec fn opt_string(s: Option<Seq<char>>) -> Option<Json> {
    match s {
        Some(t) => Some(Json::String(t)),
        None => None,
    }
}

/// String values of the given texts.
pub open spec fn strings(v: Seq<Seq<char>>) -> Json {
    Json::Array(v.map_values(|s: Seq<char>| Json::String(s)))
}

/// An object without entries.
pub fn new_object() -> (r: Vec<(String, Value)>)
    ensures
        entries(r@) == collected(Seq::empty()),
{
    let v: Vec<(String, Value)> = Vec::new();
    assert(entries(v@) =~= Seq::empty());
    v
}

/// Stores a value in an object.
pub fn put(object: &mut Vec<(String, Value)>, key: &str, value: Value)
    ensures
        entries(final(object)@) == stored(entries(old(object)@), key@, value@),
{
    store(object, key.to_string(), value);
}

/// Makes an array of string values.
pub fn strings_value(v: &Vec<String>) -> (r: Value)
    ensures
        r@ == strings(crate::text::texts(v@)),
{
    broadcast use lemma_array_view;

    let ghost all = crate::text::texts(v@).map_values(|s: Seq<char>| Json::String(s));
    let mut out: Vec<Value> = Vec::new();
    let mut i: usize = 0;
    while i < v.len()
        invariant
            i <= v@.len(),
            all == crate::text::texts(v@).map_values(|s: Seq<char>| Json::String(s)),
            values(out@) == all.take(i as int),
        decreases v.len() - i,
    {
        let ghost was = values(out@);
        out.push(string_value(v[i].as_str()));
        assert(values(out@) =~= was.push(all[i as int]));
        assert(all.take(i + 1) =~= all.take(i as int).push(all[i as int]));
        i += 1;
    }
    assert(all.take(all.len() as int) =~= all);
    Value::Array(out)
}

/// A number as a value.
pub open spec fn natural(n: nat) -> Json {
    Json::Number(Number::PosInt(n as u64))
}

/// The table, kept in the order of its keys, into which the given entries are stored
/// in turn.
pub open spec fn tabled(pairs: Seq<(Seq<char>, Json)>) -> Seq<(Seq<char>, Json)>
    decreases pairs.len(),
{
    if pairs.len() == 0 {
        Seq::empty()
    } else {
        inserted(tabled(pairs.drop_last()), pairs.last().0, pairs.last().1)
    }
}

/// A table is in the order of its keys, and entries that are in that order, each key
/// once, are a table as they stand.
pub proof fn lemma_tabled(pairs: Seq<(Seq<char>, Json)>)
    ensures
        table::sorted(tabled(pairs)),
        table::sorted(pairs) ==> tabled(pairs) == pairs,
    decreases pairs.len(),
{
    if pairs.len() > 0 {
        let head = pairs.drop_last();
        lemma_tabled(head);
        table::lemma_sorted_inserted(tabled(head), pairs.last().0, pairs.last().1);
        if table::sorted(pairs) {
            assert forall|i: int, j: int| 0 <= i < j < head.len() implies crate::text::before(
                #[trigger] head[i].0,
                #[trigger] head[j].0,
            ) by {
                assert(head[i] == pairs[i] && head[j] == pairs[j]);
            }
            table::lemma_slot_from(keys(head), pairs.last().0, 0);
            let p = table::slot_from(keys(head), pairs.last().0, 0) as int;
            if p < head.len() {
                assert(pairs[p] == head[p]);
                assert(crate::text::before(pairs[p].0, pairs[pairs.len() - 1].0));
                crate::text::lemma_before_asymmetric(head[p].0, pairs.last().0);
                assert(keys(head)[p] == head[p].0);
            }
            assert(head.insert(p, pairs.last()) =~= pairs);
        }
    }
}

/// Makes a table of entries.
pub fn to_table(pairs: &Vec<(String, Value)>) -> (r: Vec<(String, Value)>)
    ensures
        entries(r@) == tabled(entries(pairs@)),
{
    let ghost all = entries(pairs@);
    let mut out: Vec<(String, Value)> = Vec::new();
    let mut i: usize = 0;
    assert(entries(out@) =~= tabled(all.take(0)));
    while i < pairs.len()
        invariant
            i <= pairs@.len(),
            all == entries(pairs@),
            entries(out@) == tabled(all.take(i as int)),
        decreases pairs.len() - i,
    {
        assert(all.take(i + 1).drop_last() =~= all.take(i as int));
        assert(all.take(i + 1).last() == (pairs@[i as int].0@, pairs@[i as int].1@));
        insert(&mut out, pairs[i].0.clone(), pairs[i].1.copy());
        i += 1;
    }
    assert(all.take(all.len() as int) =~= all);
    out
}

/// Puts entries in the order of their keys.
pub fn sort_entries(v: Vec<(String, Value)>) -> (r: Vec<(String, Value)>)
    ensures
        entries(r@) == table::ordered(entries(v@)),
{
    proof {
        lemma_entries_mapped(v@);
        table::lemma_ordered_mapped(keyed(v@), |x: Value| x@);
    }
    let r = table::sort(v);
    proof {
        lemma_entries_mapped(r@);
    }
    r
}

proof fn lemma_entries_mapped(v: Seq<(String, Value)>)
    ensures
        entries(v) == table::mapped(keyed(v), |x: Value| x@),
{
    assert(entries(v) =~= table::mapped(keyed(v), |x: Value| x@));
}

/// The value under a key of an object, and nothing of a value that is no object.
pub open spec fn field(v: Json, key: Seq<char>) -> Option<Json> {
    match v {
        Json::Object(object) => lookup(object, key),
        _ => None,
    }
}

/// An object without entries holds nothing.
pub broadcast proof fn lemma_nothing_collected(key: Seq<char>)
    ensures
        #[trigger] lookup(collected(Seq::empty()), key) is None,
{
    table::lemma_position_from(keys(collected(Seq::empty())), key, 0);
}

/// The entry that is stored last is found, and those before it elsewhere.
pub broadcast proof fn lemma_collected_found(
    pairs: Seq<(Seq<char>, Json)>,
    pair: (Seq<char>, Json),
    key: Seq<char>,
)
    ensures
        #[trigger] lookup(collected(pairs.push(pair)), key) == (if key == pair.0 {
            Some(pair.1)
        } else {
            lookup(collected(pairs), key)
        }),
{
    lemma_collected_push(pairs, pair);
    table::lemma_lookup_stored(collected(pairs), pair.0, pair.1, key);
}

/// An object holds under a key the last entry of that key, and nothing where no entry
/// has it.
pub proof fn law_last_entry_is_held(pairs: Seq<(Seq<char>, Json)>, key: Seq<char>)
    ensures
        (forall|i: int| 0 <= i < pairs.len() ==> (#[trigger] pairs[i]).0 != key) ==> field(
            object(pairs),
            key,
        ) is None,
        forall|i: int|
            0 <= i < pairs.len() && (#[trigger] pairs[i]).0 == key && (forall|j: int|
                i < j < pairs.len() ==> (#[trigger] pairs[j]).0 != key) ==> field(
                object(pairs),
                key,
            ) == Some(pairs[i].1),
    decreases pairs.len(),
{
    if pairs.len() == 0 {
        lemma_nothing_collected(key);
    } else {
        let head = pairs.drop_last();
        law_last_entry_is_held(head, key);
        assert(head.push(pairs.last()) =~= pairs);
        lemma_collected_found(head, pairs.last(), key);
        assert(pairs[pairs.len() - 1] == pairs.last());
        if pairs.last().0 != key {
            assert forall|i: int| 0 <= i < head.len() implies #[trigger] head[i] == pairs[i] by {}
            assert forall|i: int|
                0 <= i < pairs.len() && (#[trigger] pairs[i]).0 == key && (forall|j: int|
                    i < j < pairs.len() ==> (#[trigger] pairs[j]).0 != key) implies field(
                object(pairs),
                key,
            ) == Some(pairs[i].1) by {
                assert(head[i].0 == key);
                assert forall|j: int| i < j < head.len() implies (#[trigger] head[j]).0
                    != key by {
                    assert(pairs[j].0 != key);
                }
            }
            if forall|i: int| 0 <= i < pairs.len() ==> (#[trigger] pairs[i]).0 != key {
                assert forall|i: int| 0 <= i < head.len() implies (#[trigger] head[i]).0
                    != key by {
                    assert(pairs[i].0 != key);
                }
            }
        }
    }
}

/// A table holds under a key the last entry of that key, and nothing where no entry has
/// it.
pub proof fn law_last_entry_is_tabled(pairs: Seq<(Seq<char>, Json)>, key: Seq<char>)
    ensures
        (forall|i: int| 0 <= i < pairs.len() ==> (#[trigger] pairs[i]).0 != key) ==> lookup(
            tabled(pairs),
            key,
        ) is None,
        forall|i: int|
            0 <= i < pairs.len() && (#[trigger] pairs[i]).0 == key && (forall|j: int|
                i < j < pairs.len() ==> (#[trigger] pairs[j]).0 != key) ==> lookup(
                tabled(pairs),
                key,
            ) == Some(pairs[i].1),
    decreases pairs.len(),
{
    if pairs.len() == 0 {
        table::lemma_position_from(keys(tabled(pairs)), key, 0);
    } else {
        let head = pairs.drop_last();
        law_last_entry_is_tabled(head, key);
        table::lemma_lookup_inserted(tabled(head), pairs.last().0, pairs.last().1, key);
        assert(pairs[pairs.len() - 1] == pairs.last());
        if pairs.last().0 != key {
            assert forall|i: int|
                0 <= i < pairs.len() && (#[trigger] pairs[i]).0 == key && (forall|j: int|
                    i < j < pairs.len() ==> (#[trigger] pairs[j]).0 != key) implies lookup(
                tabled(pairs),
                key,
            ) == Some(pairs[i].1) by {
                assert(head[i].0 == key);
                assert forall|j: int| i < j < head.len() implies (#[trigger] head[j]).0
                    != key by {
                    assert(pairs[j].0 != key);
                }
            }
            if forall|i: int| 0 <= i < pairs.len() ==> (#[trigger] pairs[i]).0 != key {
                assert forall|i: int| 0 <= i < head.len() implies (#[trigger] head[i]).0
                    != key by {
                    assert(pairs[i].0 != key);
                }
            }
        }
    }
}

} // verus!
