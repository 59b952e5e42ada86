//! JSON pointers.

use vstd::prelude::*;
use crate::text::{
    chars_of, lemma_split_pieces, parse_usize, parsed_up_to, replace, replaced, split,
    split_at_char, texts,
};
use crate::value::{get, lemma_array_view, lemma_object_view, Json, Value};
use crate::table::lookup;

verus! {

/// A step of a pointer, with its escapes undone.
pub open spec fn unescaped(step: Seq<char>) -> Seq<char> {
    replaced(replaced(step, "~1"@, "/"@), "~0"@, "~"@)
}

/// The index that a step means in an array: a decimal number without a sign and
/// without leading zeros.
pub open spec fn array_index(step: Seq<char>) -> Option<nat> {
    if step.len() > 0 && (step[0] == '+' || (step[0] == '0' && step.len() != 1)) {
        None
    } else {
        parsed_up_to(step, usize::MAX as nat)
    }
}

/// The value that a step leads to.
pub open spec fn stepped(value: Json, step: Seq<char>) -> Option<Json> {
    match value {
        Json::Object(fields) => lookup(fields, step),
        Json::Array(items) => match array_index(step) {
            Some(i) if i < items.len() => Some(items[i as int]),
            _ => None,
        },
        _ => None,
    }
}

/// The value that steps lead to, from one of them on.
pub open spec fn followed(value: Json, steps: Seq<Seq<char>>, from: nat) -> Option<Json>
    decreases steps.len() - from,
{
    if from >= steps.len() {
        Some(value)
    } else {
        match stepped(value, unescaped(steps[from as int])) {
            Some(next) => followed(next, steps, from + 1),
            None => None,
        }
    }
}

/// The value that a pointer leads to.
pub open spec fn pointed(value: Json, pointer: Seq<char>) -> Option<Json> {
    if pointer.len() == 0 {
        Some(value)
    } else if pointer[0] != '/' {
        None
    } else {
        followed(value, split(pointer, '/'), 1)
    }
}

fn unescape(step: &str) -> (r: String)
    ensures
        r@ == unescaped(step@),
{
    proof {
        reveal_strlit("~1");
        reveal_strlit("~0");
    }
    let slashes = replace(step, "~1", "/");
    replace(slashes.as_str(), "~0", "~")
}

fn index_of(step: &str) -> (r: Option<usize>)
    ensures
        array_index(step@) == (match r {
            Some(i) => Some(i as nat),
            None => None,
        }),
{
    let x = chars_of(step);
    if x.len() > 0 && (x[0] == '+' || (x[0] == '0' && x.len() != 1)) {
        return None;
    }
    parse_usize(step)
}

fn step_into<'a>(value: &'a Value, step: &str) -> (r: Option<&'a Value>)
    ensures
        stepped(value@, step@) == (match r {
            Some(v) => Some(v@),
            None => None,
        }),
{
    broadcast use {lemma_array_view, lemma_object_view};

    match value {
        Value::Object(fields) => get(fields, step),
        Value::Array(items) => match index_of(step) {
            Some(i) => {
                if i < items.len() {
                    Some(&items[i])
                } else {
                    None
                }
            },
            None => None,
        },
        _ => None,
    }
}

/// Finds the value that a pointer leads to.
pub fn follow_pointer<'a>(value: &'a Value, pointer: &str) -> (r: Option<&'a Value>)
    ensures
        pointed(value@, pointer@) == (match r {
            Some(v) => Some(v@),
            None => None,
        }),
{
    let x = chars_of(pointer);
    if x.len() == 0 {
        return Some(value);
    }
    if x[0] != '/' {
        return None;
    }
    let steps = split_at_char(pointer, '/');
    let ghost all = texts(steps@);
    proof {
        lemma_split_pieces(pointer@, '/');
    }
    let mut at = value;
    let mut i: usize = 1;
    while i < steps.len()
        invariant
            1 <= i <= steps@.len(),
            all == texts(steps@),
            all == split(pointer@, '/'),
            pointer@.len() > 0,
            pointer@[0] == '/',
            followed(at@, all, i as nat) == followed(value@, all, 1),
        decreases steps.len() - i,
    {
        assert(all[i as int] == steps@[i as int]@);
        let step = unescape(steps[i].as_str());
        match step_into(at, step.as_str()) {
            Some(next) => {
                at = next;
            },
            None => {
                return None;
            },
        }
        i += 1;
    }
    Some(at)
}

/// The empty pointer leads to the whole value, and one that does not begin with a slash
/// nowhere.
pub proof fn law_pointers_begin_with_a_slash(value: Json, pointer: Seq<char>)
    ensures
        pointed(value, Seq::empty()) == Some(value),
        pointer.len() > 0 && pointer[0] != '/' ==> pointed(value, pointer) is None,
{
}

/// A further step leads from where the steps before it led: to the field of its name, or
/// to the item of its number.
pub proof fn law_steps_lead_on(value: Json, steps: Seq<Seq<char>>, from: nat, step: Seq<char>)
    requires
        from <= steps.len(),
    ensures
        followed(value, steps, from) is None ==> followed(value, steps.push(step), from) is None,
        followed(value, steps, from) matches Some(next) ==> {
            &&& next matches Json::Object(fields) ==> followed(value, steps.push(step), from)
                == lookup(fields, unescaped(step))
            &&& next matches Json::Array(items) ==> (array_index(unescaped(step)) matches Some(i)
                ==> (i < items.len() ==> followed(value, steps.push(step), from) == Some(
                items[i as int],
            )))
            &&& next matches Json::Array(items) ==> (array_index(unescaped(step)) matches Some(i)
                ==> (i >= items.len() ==> followed(value, steps.push(step), from) is None))
            &&& !(next is Object) && !(next is Array) ==> followed(
                value,
                steps.push(step),
                from,
            ) is None
        },
    decreases steps.len() - from,
{
    let longer = steps.push(step);
    if from < steps.len() {
        assert(longer[from as int] == steps[from as int]);
        if let Some(next) = stepped(value, unescaped(steps[from as int])) {
            law_steps_lead_on(next, steps, from + 1, step);
        }
    } else {
        assert(longer[from as int] == step);
        reveal_with_fuel(followed, 2);
    }
}

/// A step without a tilde is the name itself.
pub proof fn law_plain_steps_are_names(step: Seq<char>)
    requires
        !step.contains('~'),
    ensures
        unescaped(step) == step,
{
    reveal_strlit("~1");
    reveal_strlit("~0");
    lemma_not_found(step, "~1"@);
    lemma_not_found(step, "~0"@);
}

proof fn lemma_not_found(step: Seq<char>, mark: Seq<char>)
    requires
        !step.contains('~'),
        mark.len() > 0,
        mark[0] == '~',
    ensures
        replaced(step, mark, "/"@) == step,
        replaced(step, mark, "~"@) == step,
{
    crate::text::lemma_find_from(step, mark, 0);
    if let Some(i) = crate::text::find(step, mark) {
        assert(step.subrange(i as int, (i + mark.len()) as int)[0] == '~');
        assert(step[i as int] == '~');
    }
}

} // verus!
