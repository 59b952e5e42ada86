//! Filter expressions for selecting and slicing output data.
//!
//! A filter expression is a list of paths separated by commas. A path is made
//! of keys separated by dots and of array slices in square brackets.

use vstd::prelude::*;
use crate::table::{keys, lookup, stored};
use crate::text::{
    chars_of, decimal, find_char, find_char_from, join, lemma_find_char_from, non_empty,
    parse_usize, parsed_up_to, split, split_at_char, text_of, texts,
};
use crate::value;
use crate::value::{entries, lemma_array_view, lemma_object_view, values, Json, Value};

verus! {

/// A single segment in a filter path.
#[derive(Debug, Clone)]
pub enum Segment {
    /// A named key to descend into an object.
    Key(String),
    /// An array slice `[start, end)`.
    Slice { start: usize, end: usize },
}

/// A filter path is an ordered list of segments to traverse.
pub type FilterPath = Vec<Segment>;

/// What a [`Segment`] means.
pub enum Step {
    /// Descend into the value under this key.
    Key(Seq<char>),
    /// Take the items from `start` up to but not including `end`.
    Slice { start: nat, end: nat },
}

impl View for Segment {
    type V = Step;

    open spec fn view(&self) -> Step {
        match *self {
            Segment::Key(k) => Step::Key(k@),
            Segment::Slice { start, end } => Step::Slice { start: start as nat, end: end as nat },
        }
    }
}

/// What a path means.
pub open spec fn steps_of(path: Seq<Segment>) -> Seq<Step> {
    path.map_values(|s: Segment| s@)
}

/// What several paths mean.
pub open spec fn paths_of(paths: Seq<FilterPath>) -> Seq<Seq<Step>> {
    paths.map_values(|p: FilterPath| steps_of(p@))
}

// ---------------------------------------------------------------------------
// Parsing
// ---------------------------------------------------------------------------

/// How many more brackets `s` opens than it closes.
pub open spec fn depth(s: Seq<char>) -> int
    decreases s.len(),
{
    if s.len() == 0 {
        0
    } else {
        depth(s.drop_last()) + (if s.last() == '[' {
            1int
        } else if s.last() == ']' {
            -1int
        } else {
            0int
        })
    }
}

/// The pieces of `s` between those commas that stand outside brackets.
pub open spec fn top_level_pieces(s: Seq<char>) -> Seq<Seq<char>>
    decreases s.len(),
{
    if s.len() == 0 {
        seq![Seq::empty()]
    } else {
        let head = top_level_pieces(s.drop_last());
        if s.last() == ',' && depth(s.drop_last()) == 0 {
            head.push(Seq::empty())
        } else {
            head.drop_last().push(head.last().push(s.last()))
        }
    }
}

/// The keys that stand between dots.
pub open spec fn key_steps(s: Seq<char>) -> Seq<Step> {
    non_empty(split(s, '.')).map_values(|k: Seq<char>| Step::Key(k))
}

/// The number written by `s`, and zero where `s` writes none.
pub open spec fn index_value(s: Seq<char>) -> nat {
    match parsed_up_to(s, usize::MAX as nat) {
        Some(n) => n,
        None => 0,
    }
}

/// The slice that stands between two brackets: `n` for one item, `n,m` for the
/// items from `n` up to `m`, and none for anything longer.
pub open spec fn slice_steps(inner: Seq<char>) -> Seq<Step> {
    let parts = split(inner, ',');
    if parts.len() == 2 {
        seq![Step::Slice { start: index_value(parts[0]), end: index_value(parts[1]) }]
    } else if parts.len() == 1 {
        seq![Step::Slice { start: index_value(parts[0]), end: index_value(parts[0]) + 1 }]
    } else {
        Seq::empty()
    }
}

/// The position of the bracket that closes the slice opened at `open`, or the
/// end of the text.
pub open spec fn closing(s: Seq<char>, open: nat) -> nat {
    match find_char_from(s, ']', open) {
        Some(i) => i,
        None => s.len(),
    }
}

/// What follows a slice that is closed at `close`, without a leading dot.
pub open spec fn after_slice(s: Seq<char>, close: nat) -> Seq<char> {
    if close + 1 < s.len() {
        if s[close as int + 1] == '.' {
            s.skip(close as int + 2)
        } else {
            s.skip(close as int + 1)
        }
    } else {
        Seq::empty()
    }
}

/// The steps that one path expression stands for.
pub open spec fn token_steps(s: Seq<char>) -> Seq<Step>
    decreases s.len(),
{
    match find_char_from(s, '[', 0) {
        None => key_steps(s),
        Some(open) => {
            let close = closing(s, open);
            proof {
                lemma_find_char_from(s, '[', 0);
            }
            key_steps(s.take(open as int)) + slice_steps(s.subrange(open as int + 1, close as int))
                + token_steps(after_slice(s, close))
        },
    }
}

/// The paths that a filter expression stands for.
pub open spec fn expression_paths(s: Seq<char>) -> Seq<Seq<Step>> {
    non_empty(top_level_pieces(s)).map_values(|t: Seq<char>| token_steps(t))
}

/// Whether every slice bound is a machine number.
pub open spec fn fits(path: Seq<Step>) -> bool {
    forall|i: int|
        0 <= i < path.len() ==> (#[trigger] path[i] matches Step::Slice { start, end } ==> start
            <= usize::MAX && end <= usize::MAX)
}

/// Whether every slice bound in `paths` is a machine number. Only an index
/// equal to `usize::MAX` breaks this, since its slice ends one later.
pub open spec fn all_fit(paths: Seq<Seq<Step>>) -> bool {
    forall|i: int| 0 <= i < paths.len() ==> fits(#[trigger] paths[i])
}

/// Parses a filter expression string into structured filter paths.
///
/// Tokens are split on commas at the top level (commas inside `[...]` are part
/// of slice syntax). Each token is then split on `.` for key segments.
pub fn parse(expression: &str) -> (paths: Vec<FilterPath>)
    requires
        all_fit(expression_paths(expression@)),
    ensures
        paths_of(paths@) == expression_paths(expression@),
{
    parse_bounded(expression).unwrap()
}

/// Parses a filter expression, and gives nothing where the end of a slice would
/// not be a machine number.
pub fn parse_bounded(expression: &str) -> (r: Option<Vec<FilterPath>>)
    ensures
        r is Some <==> all_fit(expression_paths(expression@)),
        r matches Some(paths) ==> paths_of(paths@) == expression_paths(expression@),
{
    let tokens = split_top_level_commas(expression);
    let mut paths: Vec<FilterPath> = Vec::new();
    let mut i: usize = 0;
    let ghost all = expression_paths(expression@);
    assert(all.len() == tokens@.len());
    while i < tokens.len()
        invariant
            i <= tokens@.len(),
            all == expression_paths(expression@),
            forall|k: int| 0 <= k < i ==> fits(#[trigger] all[k]),
            all.len() == tokens@.len(),
            texts(tokens@) == non_empty(top_level_pieces(expression@)),
            paths_of(paths@) == all.take(i as int),
        decreases tokens.len() - i,
    {
        assert(texts(tokens@)[i as int] == tokens@[i as int]@);
        assert(all[i as int] == token_steps(tokens@[i as int]@));
        match parse_token(tokens[i].as_str()) {
            Some(path) => {
                let ghost was = paths_of(paths@);
                paths.push(path);
                assert(paths_of(paths@) =~= was.push(all[i as int]));
                assert(all.take(i + 1) =~= all.take(i as int).push(all[i as int]));
            },
            None => {
                return None;
            },
        }
        i += 1;
    }
    assert(all.take(all.len() as int) =~= all);
    Some(paths)
}

/// Splits a string on commas, but ignores commas inside `[...]`.
fn split_top_level_commas(expression: &str) -> (tokens: Vec<String>)
    ensures
        texts(tokens@) == non_empty(top_level_pieces(expression@)),
{
    let x = chars_of(expression);
    let mut tokens: Vec<String> = Vec::new();
    let mut current = String::new();
    let mut level: i128 = 0;
    let mut i: usize = 0;
    proof {
        reveal_with_fuel(non_empty, 2);
        assert(top_level_pieces(x@.take(0)) =~= seq![Seq::<char>::empty()]);
        assert(top_level_pieces(x@.take(0)).drop_last() =~= Seq::<Seq<char>>::empty());
        assert(texts(tokens@) =~= Seq::<Seq<char>>::empty());
    }
    while i < x.len()
        invariant
            i <= x@.len(),
            x@ == expression@,
            -(i as int) <= level <= i,
            level == depth(x@.take(i as int)),
            top_level_pieces(x@.take(i as int)).len() >= 1,
            top_level_pieces(x@.take(i as int)).last() == current@,
            texts(tokens@) == non_empty(top_level_pieces(x@.take(i as int)).drop_last()),
        decreases x.len() - i,
    {
        let c = x[i];
        let ghost head = top_level_pieces(x@.take(i as int));
        let ghost was = texts(tokens@);
        assert(x@.take(i + 1).drop_last() =~= x@.take(i as int));
        assert(x@.take(i + 1).last() == c);
        let ghost next = top_level_pieces(x@.take(i + 1));
        if c == ',' && level == 0 {
            assert(next.drop_last() =~= head);
            let ghost piece = current@;
            if !current.as_str().is_empty() {
                tokens.push(current);
                assert(texts(tokens@) =~= was.push(piece));
            }
            current = String::new();
        } else {
            if c == '[' {
                level = level + 1;
            } else if c == ']' {
                level = level - 1;
            }
            assert(next.drop_last() =~= head.drop_last());
            current.push(c);
        }
        i += 1;
    }
    assert(x@.take(x@.len() as int) =~= x@);
    let ghost was = texts(tokens@);
    let ghost piece = current@;
    if !current.as_str().is_empty() {
        tokens.push(current);
        assert(texts(tokens@) =~= was.push(piece));
    }
    tokens
}

/// Adds the keys of a dotted piece to a path.
fn push_keys(path: &mut Vec<Segment>, piece: &str)
    ensures
        steps_of(final(path)@) == steps_of(old(path)@) + key_steps(piece@),
{
    let parts = split_at_char(piece, '.');
    let ghost start = steps_of(path@);
    let ghost all = split(piece@, '.');
    let mut i: usize = 0;
    let ghost named = |ks: Seq<Seq<char>>| ks.map_values(|k: Seq<char>| Step::Key(k));
    assert(start + named(non_empty(all.take(0))) =~= start);
    while i < parts.len()
        invariant
            i <= parts@.len(),
            all == texts(parts@),
            named == (|ks: Seq<Seq<char>>| ks.map_values(|k: Seq<char>| Step::Key(k))),
            steps_of(path@) == start + named(non_empty(all.take(i as int))),
        decreases parts.len() - i,
    {
        let ghost was = steps_of(path@);
        let ghost done = non_empty(all.take(i as int));
        assert(all[i as int] == parts@[i as int]@);
        assert(all.take(i + 1).drop_last() =~= all.take(i as int));
        if !parts[i].as_str().is_empty() {
            path.push(Segment::Key(parts[i].clone()));
            assert(steps_of(path@) =~= was.push(Step::Key(all[i as int])));
            assert(named(done.push(all[i as int])) =~= named(done).push(Step::Key(all[i as int])));
            assert(steps_of(path@) =~= start + named(done.push(all[i as int])));
        }
        i += 1;
    }
    assert(all.take(all.len() as int) =~= all);
}

/// Adds the slice written between two brackets to a path, where its bounds are
/// machine numbers.
fn push_slice(path: &mut Vec<Segment>, inner: &str) -> (done: bool)
    ensures
        done == fits(slice_steps(inner@)),
        done ==> steps_of(final(path)@) == steps_of(old(path)@) + slice_steps(inner@),
{
    let parts = split_at_char(inner, ',');
    let ghost was = steps_of(path@);
    let ghost all = split(inner@, ',');
    let ghost slice = slice_steps(inner@);
    assert(all == texts(parts@));
    if parts.len() == 2 {
        assert(all[0] == parts@[0]@ && all[1] == parts@[1]@);
        let start: usize = match parse_usize(parts[0].as_str()) {
            Some(n) => n,
            None => 0,
        };
        let end: usize = match parse_usize(parts[1].as_str()) {
            Some(n) => n,
            None => 0,
        };
        path.push(Segment::Slice { start, end });
        assert(steps_of(path@) =~= was + slice);
        true
    } else if parts.len() == 1 {
        assert(all[0] == parts@[0]@);
        let index: usize = match parse_usize(parts[0].as_str()) {
            Some(n) => n,
            None => 0,
        };
        assert(slice[0] == Step::Slice { start: index as nat, end: (index + 1) as nat });
        if index == usize::MAX {
            return false;
        }
        path.push(Segment::Slice { start: index, end: index + 1 });
        assert(steps_of(path@) =~= was + slice);
        true
    } else {
        assert(steps_of(path@) =~= was + slice);
        true
    }
}

/// Parses a single filter token into a path of segments.
fn parse_token(token: &str) -> (r: Option<FilterPath>)
    ensures
        r is Some <==> fits(token_steps(token@)),
        r matches Some(path) ==> steps_of(path@) == token_steps(token@),
{
    let mut path: Vec<Segment> = Vec::new();
    let mut rest = chars_of(token);
    assert(steps_of(path@) + token_steps(rest@) =~= token_steps(token@));
    loop
        invariant_except_break
            steps_of(path@) + token_steps(rest@) == token_steps(token@),
        invariant
            fits(steps_of(path@)),
        ensures
            steps_of(path@) == token_steps(token@),
        decreases rest.len(),
    {
        let ghost was = steps_of(path@);
        proof {
            lemma_find_char_from(rest@, '[', 0);
        }
        match find_char(&rest, '[', 0) {
            Some(open) => {
                proof {
                    lemma_find_char_from(rest@, ']', open as nat);
                }
                let close: usize = match find_char(&rest, ']', open) {
                    Some(i) => i,
                    None => rest.len(),
                };
                assert(close > open) by {
                    assert(rest@[open as int] == '[');
                }
                let head = text_of(&rest, 0, open);
                let inner = text_of(&rest, open + 1, close);
                assert(head@ =~= rest@.take(open as int));
                let ghost tail = after_slice(rest@, close as nat);
                assert(token_steps(rest@) == key_steps(head@) + slice_steps(inner@) + token_steps(
                    tail,
                ));
                push_keys(&mut path, head.as_str());
                if !push_slice(&mut path, inner.as_str()) {
                    proof {
                        let all = token_steps(token@);
                        let k = (was + key_steps(head@)).len() as int;
                        let i = choose|i: int|
                            0 <= i < slice_steps(inner@).len() && !(
                            #[trigger] slice_steps(inner@)[i] matches Step::Slice { start, end }
                                ==> start <= usize::MAX && end <= usize::MAX);
                        assert(all[k + i] == slice_steps(inner@)[i]);
                    }
                    return None;
                }
                assert(steps_of(path@) =~= was + key_steps(head@) + slice_steps(inner@));
                let len: usize = rest.len();
                let from: usize = if close < len && close + 1 < len {
                    if rest[close + 1] == '.' {
                        close + 2
                    } else {
                        close + 1
                    }
                } else {
                    len
                };
                let next = text_of(&rest, from, len);
                assert(next@ =~= tail);
                rest = chars_of(next.as_str());
                assert(steps_of(path@) + token_steps(rest@) =~= was + (key_steps(head@)
                    + slice_steps(inner@) + token_steps(tail)));
            },
            None => {
                let piece = text_of(&rest, 0, rest.len());
                assert(piece@ =~= rest@);
                push_keys(&mut path, piece.as_str());
                break ;
            },
        }
    }
    Some(path)
}

// ---------------------------------------------------------------------------
// Application
// ---------------------------------------------------------------------------

/// Whether a value is neither an object nor an array.
pub open spec fn scalar(v: Json) -> bool {
    !(v is Array) && !(v is Object)
}

/// The items from `start` up to `end`, as far as there are any.
pub open spec fn sliced(items: Seq<Json>, start: nat, end: nat) -> Seq<Json> {
    let to = if end < items.len() {
        end
    } else {
        items.len()
    };
    if start < to {
        items.subrange(start as int, to as int)
    } else {
        Seq::empty()
    }
}

/// `target` with what `path` selects of `data` merged in.
///
/// A key that `data` does not hold, or that leads into something other than the
/// next step needs, selects nothing.
pub open spec fn merged(target: Seq<(Seq<char>, Json)>, data: Json, path: Seq<Step>) -> Seq<
    (Seq<char>, Json),
>
    decreases path.len(), 1nat,
{
    if path.len() == 0 || !(data is Object) || !(path[0] is Key) {
        target
    } else {
        let key = path[0]->Key_0;
        match lookup(data->Object_0, key) {
            None => target,
            Some(found) => if path.len() == 1 {
                stored(target, key, found)
            } else {
                match path[1] {
                    Step::Slice { start, end } => match found {
                        Json::Array(items) => stored(
                            target,
                            key,
                            Json::Array(selected_items(sliced(items, start, end), path)),
                        ),
                        _ => target,
                    },
                    Step::Key(_) => match found {
                        Json::Object(_) => match nested_target(target, key) {
                            Some(inner) => stored(
                                target,
                                key,
                                Json::Object(merged(inner, found, path.skip(1))),
                            ),
                            None => target,
                        },
                        _ => target,
                    },
                }
            },
        }
    }
}

/// What the steps behind a key and a slice select of each item: the item itself
/// where no step follows.
pub open spec fn selected_items(items: Seq<Json>, path: Seq<Step>) -> Seq<Json>
    decreases path.len(), 0nat,
{
    if path.len() <= 2 {
        items
    } else {
        items.map_values(|item: Json| Json::Object(merged(Seq::empty(), item, path.skip(2))))
    }
}

proof fn lemma_selected_none(path: Seq<Step>)
    ensures
        selected_items(Seq::empty(), path) == Seq::<Json>::empty(),
{
    reveal_with_fuel(selected_items, 2);
    assert(selected_items(Seq::empty(), path) =~= Seq::<Json>::empty());
}

/// One item more is one selection more.
proof fn lemma_selected_push(items: Seq<Json>, item: Json, path: Seq<Step>)
    requires
        path.len() > 2,
    ensures
        selected_items(items.push(item), path) == selected_items(items, path).push(
            Json::Object(merged(Seq::empty(), item, path.skip(2))),
        ),
{
    reveal_with_fuel(selected_items, 2);
    reveal_with_fuel(merged, 2);
    assert(selected_items(items.push(item), path) =~= selected_items(items, path).push(
        Json::Object(merged(Seq::empty(), item, path.skip(2))),
    ));
}

/// The object under `key` that a nested selection is merged into: an empty one
/// where there is nothing yet, and none where another kind of value stands.
pub open spec fn nested_target(target: Seq<(Seq<char>, Json)>, key: Seq<char>) -> Option<
    Seq<(Seq<char>, Json)>,
> {
    match lookup(target, key) {
        None => Some(Seq::empty()),
        Some(Json::Object(inner)) => Some(inner),
        Some(_) => None,
    }
}

/// All paths merged, in order.
pub open spec fn merged_all(paths: Seq<Seq<Step>>, data: Json) -> Seq<(Seq<char>, Json)>
    decreases paths.len(),
{
    if paths.len() == 0 {
        Seq::empty()
    } else {
        merged(merged_all(paths.drop_last(), data), data, paths.last())
    }
}

/// What a single key selects: a scalar itself, anything else under its key, and
/// null where the key is missing.
pub open spec fn picked(data: Json, key: Seq<char>) -> Json {
    match data {
        Json::Object(object) => match lookup(object, key) {
            Some(found) => if scalar(found) {
                found
            } else {
                Json::Object(seq![(key, found)])
            },
            None => Json::Null,
        },
        _ => Json::Null,
    }
}

/// What `paths` select of `data`.
pub open spec fn applied(data: Json, paths: Seq<Seq<Step>>) -> Json
    decreases data,
{
    if paths.len() == 0 {
        data
    } else {
        match data {
            Json::Array(items) => Json::Array(
                Seq::new(
                    items.len(),
                    |i: int|
                        if 0 <= i < items.len() {
                            applied(items[i], paths)
                        } else {
                            Json::Null
                        },
                ),
            ),
            _ => if paths.len() == 1 && paths[0].len() == 1 && paths[0][0] is Key {
                picked(data, paths[0][0]->Key_0)
            } else {
                Json::Object(merged_all(paths, data))
            },
        }
    }
}

/// Whether a value is a scalar (not object or array).
fn is_scalar(value: &Value) -> (r: bool)
    ensures
        r == scalar(value@),
{
    broadcast use {lemma_array_view, lemma_object_view};

    match value {
        Value::Array(_) => false,
        Value::Object(_) => false,
        _ => true,
    }
}

/// Applies parsed filter paths to data, returning a filtered copy.
///
/// Behavior:
/// - Single key selecting a scalar returns the scalar directly.
/// - Array inputs are mapped element-wise.
/// - Object inputs merge results from each path.
/// - Key segments descend into objects.
/// - Slice segments slice arrays.
pub fn apply(data: &Value, paths: &Vec<FilterPath>) -> (r: Value)
    ensures
        r@ == applied(data@, paths_of(paths@)),
    decreases *data,
{
    broadcast use {lemma_array_view, lemma_object_view};

    let ghost all = paths_of(paths@);
    if paths.len() == 0 {
        return data.copy();
    }
    if let Value::Array(items) = data {
        let mut out: Vec<Value> = Vec::new();
        let mut i: usize = 0;
        while i < items.len()
            invariant
                i <= items@.len(),
                all == paths_of(paths@),
                values(out@) == values(items@.take(i as int)).map_values(
                    |item: Json| applied(item, all),
                ),
                decreases_to!(*data => items@),
            decreases items.len() - i,
        {
            assert(decreases_to!(items@ => items@[i as int]));
            let item = apply(&items[i], paths);
            let ghost was = values(out@);
            out.push(item);
            assert(values(out@) =~= was.push(applied(items@[i as int]@, all)));
            assert(values(items@.take(i + 1)) =~= values(items@.take(i as int)).push(
                items@[i as int]@,
            ));
            assert(values(out@) =~= values(items@.take(i + 1)).map_values(
                |item: Json| applied(item, all),
            ));
            i += 1;
        }
        assert(items@.take(items@.len() as int) =~= items@);
        proof {
            reveal_with_fuel(applied, 2);
            assert(applied(data@, all)->Array_0 =~= values(out@));
        }
        return Value::Array(out);
    }
    assert(all[0] == steps_of(paths@[0]@));
    if paths.len() == 1 && paths[0].len() == 1 {
        assert(all[0][0] == paths@[0]@[0]@);
        if let Segment::Key(key) = &paths[0][0] {
            if let Value::Object(object) = data {
                return match value::get(object, key.as_str()) {
                    Some(found) => {
                        if is_scalar(found) {
                            found.copy()
                        } else {
                            let mut single: Vec<(String, Value)> = Vec::new();
                            single.push((key.clone(), found.copy()));
                            assert(entries(single@) =~= seq![(key@, found@)]);
                            Value::Object(single)
                        }
                    },
                    None => Value::Null,
                };
            }
            return Value::Null;
        }
    }
    let mut result: Vec<(String, Value)> = Vec::new();
    let mut i: usize = 0;
    assert(entries(result@) =~= merged_all(all.take(0), data@));
    while i < paths.len()
        invariant
            i <= paths@.len(),
            all == paths_of(paths@),
            entries(result@) == merged_all(all.take(i as int), data@),
        decreases paths.len() - i,
    {
        assert(all.take(i + 1).drop_last() =~= all.take(i as int));
        assert(all[i as int] == steps_of(paths@[i as int]@));
        merge(&mut result, data, &paths[i], 0);
        assert(steps_of(paths@[i as int]@).skip(0) =~= all[i as int]);
        i += 1;
    }
    assert(all.take(all.len() as int) =~= all);
    Value::Object(result)
}

/// The items of an array from `start` up to `end`.
fn slice_items(items: &Vec<Value>, start: usize, end: usize) -> (r: Vec<Value>)
    ensures
        values(r@) == sliced(values(items@), start as nat, end as nat),
{
    let to: usize = if end < items.len() {
        end
    } else {
        items.len()
    };
    let mut out: Vec<Value> = Vec::new();
    let mut i: usize = start;
    while i < to
        invariant
            to <= items@.len(),
            start < to ==> start <= i <= to,
            start >= to ==> i == start,
            values(out@) == (if start < to {
                values(items@).subrange(start as int, i as int)
            } else {
                Seq::empty()
            }),
        decreases to - i,
    {
        let item = items[i].copy();
        let ghost was = values(out@);
        out.push(item);
        assert(values(out@) =~= was.push(values(items@)[i as int]));
        assert(values(items@).subrange(start as int, i + 1) =~= values(items@).subrange(
            start as int,
            i as int,
        ).push(values(items@)[i as int]));
        i += 1;
    }
    assert(values(out@) =~= sliced(values(items@), start as nat, end as nat));
    out
}

/// Merges what the segments from `index` on select of `data` into `target`.
fn merge(target: &mut Vec<(String, Value)>, data: &Value, segments: &Vec<Segment>, index: usize)
    requires
        index <= segments@.len(),
    ensures
        entries(final(target)@) == merged(
            entries(old(target)@),
            data@,
            steps_of(segments@).skip(index as int),
        ),
    decreases segments@.len() - index,
{
    broadcast use {lemma_array_view, lemma_object_view};

    let ghost path = steps_of(segments@).skip(index as int);
    let ghost was = entries(target@);
    if index >= segments.len() {
        return ;
    }
    assert(path[0] == segments@[index as int]@);
    let object = match data.as_object() {
        Some(object) => object,
        None => {
            return ;
        },
    };
    let key = match &segments[index] {
        Segment::Key(key) => key,
        Segment::Slice { .. } => {
            return ;
        },
    };
    let found = match value::get(object, key.as_str()) {
        Some(found) => found,
        None => {
            return ;
        },
    };
    if index + 1 >= segments.len() {
        value::store(target, key.clone(), found.copy());
        return ;
    }
    assert(path[1] == segments@[index + 1]@);
    match &segments[index + 1] {
        Segment::Slice { start, end } => {
            if let Value::Array(items) = found {
                let taken = slice_items(items, *start, *end);
                if index + 2 >= segments.len() {
                    proof {
                        reveal_with_fuel(selected_items, 2);
                        assert(selected_items(values(taken@), path) == values(taken@));
                    }
                    value::store(target, key.clone(), Value::Array(taken));
                } else {
                    let mut out: Vec<Value> = Vec::new();
                    let mut i: usize = 0;
                    let ghost rest = path.skip(2);
                    assert(rest =~= steps_of(segments@).skip(index + 2));
                    proof {
                        lemma_selected_none(path);
                        assert(values(taken@).take(0) =~= Seq::<Json>::empty());
                        assert(values(out@) =~= Seq::<Json>::empty());
                    }
                    while i < taken.len()
                        invariant
                            i <= taken@.len(),
                            index + 2 < segments.len(),
                            path == steps_of(segments@).skip(index as int),
                            rest == path.skip(2),
                            rest == steps_of(segments@).skip(index + 2),
                            values(out@) == selected_items(values(taken@).take(i as int), path),
                        decreases taken.len() - i,
                    {
                        let mut sub: Vec<(String, Value)> = Vec::new();
                        assert(entries(sub@) =~= Seq::<(Seq<char>, Json)>::empty());
                        merge(&mut sub, &taken[i], segments, index + 2);
                        let ghost prior = values(out@);
                        let ghost item = values(taken@)[i as int];
                        assert(item == taken@[i as int]@);
                        let ghost filled = sub;
                        out.push(Value::Object(sub));
                        proof {
                            lemma_object_view(filled);
                            lemma_selected_push(values(taken@).take(i as int), item, path);
                            assert(values(taken@).take(i + 1) =~= values(taken@).take(
                                i as int,
                            ).push(item));
                            assert(values(out@) =~= prior.push(
                                Json::Object(merged(Seq::empty(), item, rest)),
                            ));
                        }
                        i += 1;
                    }
                    assert(values(taken@).take(taken@.len() as int) =~= values(taken@));
                    assert(values(out@) == selected_items(values(taken@), path));
                    value::store(target, key.clone(), Value::Array(out));
                    assert(entries(target@) == merged(was, data@, path));
                }
            }
        },
        Segment::Key(_) => {
            if let Value::Object(_) = found {
                assert(path.skip(1) =~= steps_of(segments@).skip(index + 1));
                proof {
                    value::lemma_lookup_view(target@, key@);
                }
                match crate::table::find_key(target, key.as_str()) {
                    None => {
                        let mut sub: Vec<(String, Value)> = Vec::new();
                        assert(entries(sub@) =~= Seq::<(Seq<char>, Json)>::empty());
                        merge(&mut sub, found, segments, index + 1);
                        value::store(target, key.clone(), Value::Object(sub));
                    },
                    Some(at) => {
                        if let Value::Object(inner) = &target[at].1 {
                            let mut sub = value::copy_entries(inner);
                            merge(&mut sub, found, segments, index + 1);
                            value::store(target, key.clone(), Value::Object(sub));
                        }
                    },
                }
            }
        },
    }
}

// ---------------------------------------------------------------------------
// Laws
// ---------------------------------------------------------------------------

proof fn lemma_some_piece(s: Seq<char>)
    ensures
        top_level_pieces(s).len() > 0,
    decreases s.len(),
{
    if s.len() > 0 {
        lemma_some_piece(s.drop_last());
    }
}

proof fn lemma_depth_added(a: Seq<char>, b: Seq<char>)
    ensures
        depth(a + b) == depth(a) + depth(b),
    decreases b.len(),
{
    if b.len() == 0 {
        assert(a + b =~= a);
    } else {
        lemma_depth_added(a, b.drop_last());
        assert((a + b).drop_last() =~= a + b.drop_last());
    }
}

proof fn lemma_pieces_of_list(a: Seq<char>, b: Seq<char>)
    requires
        depth(a) == 0,
    ensures
        top_level_pieces(a.push(',') + b) == top_level_pieces(a) + top_level_pieces(b),
    decreases b.len(),
{
    let all = a.push(',') + b;
    lemma_some_piece(a);
    if b.len() == 0 {
        assert(all =~= a.push(','));
        assert(all.drop_last() =~= a);
    } else {
        let before = a.push(',') + b.drop_last();
        lemma_pieces_of_list(a, b.drop_last());
        lemma_some_piece(b.drop_last());
        assert(all.drop_last() =~= before);
        lemma_depth_added(a.push(','), b.drop_last());
        assert(a.push(',').drop_last() =~= a);
        assert(depth(before) == depth(b.drop_last()));
        assert(top_level_pieces(all) =~= top_level_pieces(a) + top_level_pieces(b));
    }
}

proof fn lemma_non_empty_added(a: Seq<Seq<char>>, b: Seq<Seq<char>>)
    ensures
        non_empty(a + b) == non_empty(a) + non_empty(b),
    decreases b.len(),
{
    if b.len() == 0 {
        assert(a + b =~= a);
        assert(non_empty(a) + non_empty(b) =~= non_empty(a));
    } else {
        lemma_non_empty_added(a, b.drop_last());
        assert((a + b).drop_last() =~= a + b.drop_last());
        assert(non_empty(a + b) =~= non_empty(a) + non_empty(b));
    }
}

/// A list of two expressions, the first with as many brackets opened as closed, stands
/// for the paths of the first and then those of the second.
pub proof fn law_lists_are_read_in_turn(a: Seq<char>, b: Seq<char>)
    requires
        depth(a) == 0,
    ensures
        expression_paths(a + ","@ + b) == expression_paths(a) + expression_paths(b),
{
    reveal_strlit(",");
    assert(a + ","@ + b =~= a.push(',') + b);
    lemma_pieces_of_list(a, b);
    lemma_non_empty_added(top_level_pieces(a), top_level_pieces(b));
    assert(expression_paths(a + ","@ + b) =~= expression_paths(a) + expression_paths(b));
}

/// An expression without characters stands for no path, so empty places in a list add
/// none.
pub proof fn law_empty_expression_has_no_path(a: Seq<char>)
    requires
        depth(a) == 0,
    ensures
        expression_paths(Seq::empty()) == Seq::<Seq<Step>>::empty(),
        expression_paths(","@ + a) == expression_paths(a),
        expression_paths(a + ","@) == expression_paths(a),
{
    let none = Seq::<char>::empty();
    reveal_with_fuel(non_empty, 3);
    assert(expression_paths(none) =~= Seq::empty());
    law_lists_are_read_in_turn(none, a);
    law_lists_are_read_in_turn(a, none);
    assert(none + ","@ + a =~= ","@ + a);
    assert(a + ","@ + none =~= a + ","@);
    assert(expression_paths(none) + expression_paths(a) =~= expression_paths(a));
    assert(expression_paths(a) + expression_paths(none) =~= expression_paths(a));
}

/// An array is filtered item by item, and keeps its length.
pub proof fn law_arrays_map(items: Seq<Json>, paths: Seq<Seq<Step>>)
    ensures
        applied(Json::Array(items), paths) is Array,
        applied(Json::Array(items), paths)->Array_0.len() == items.len(),
        forall|i: int|
            0 <= i < items.len() ==> #[trigger] applied(Json::Array(items), paths)->Array_0[i]
                == applied(items[i], paths),
{
    reveal_with_fuel(applied, 2);
}

/// A path that is one key selects exactly what the object holds under it.
pub proof fn law_key_selects(
    target: Seq<(Seq<char>, Json)>,
    object: Seq<(Seq<char>, Json)>,
    key: Seq<char>,
)
    requires
        lookup(object, key) is Some,
    ensures
        lookup(merged(target, Json::Object(object), seq![Step::Key(key)]), key) == lookup(
            object,
            key,
        ),
{
    crate::table::lemma_lookup_stored(target, key, lookup(object, key)->0, key);
}

/// Merging a path adds no key that the data does not hold.
pub proof fn law_merge_adds_known_keys(
    target: Seq<(Seq<char>, Json)>,
    data: Json,
    path: Seq<Step>,
    key: Seq<char>,
)
    requires
        lookup(merged(target, data, path), key) is Some,
    ensures
        lookup(target, key) is Some || (data is Object && lookup(data->Object_0, key) is Some),
{
    if path.len() > 0 && data is Object && path[0] is Key {
        let first = path[0]->Key_0;
        let found = lookup(data->Object_0, first);
        if found is Some && path.len() == 1 {
            crate::table::lemma_lookup_stored(target, first, found->0, key);
        } else if found is Some {
            match path[1] {
                Step::Slice { start, end } => {
                    if found->0 is Array {
                        crate::table::lemma_lookup_stored(
                            target,
                            first,
                            Json::Array(
                                selected_items(sliced(found->0->Array_0, start, end), path),
                            ),
                            key,
                        );
                    }
                },
                Step::Key(_) => {
                    if found->0 is Object && nested_target(target, first) is Some {
                        crate::table::lemma_lookup_stored(
                            target,
                            first,
                            Json::Object(
                                merged(nested_target(target, first)->0, found->0, path.skip(1)),
                            ),
                            key,
                        );
                    }
                },
            }
        }
    }
}

/// A filtered object has no key that the data does not have.
pub proof fn law_filter_keeps_known_keys(
    data: Seq<(Seq<char>, Json)>,
    paths: Seq<Seq<Step>>,
    key: Seq<char>,
)
    requires
        lookup(merged_all(paths, Json::Object(data)), key) is Some,
    ensures
        lookup(data, key) is Some,
    decreases paths.len(),
{
    if paths.len() > 0 {
        let head = merged_all(paths.drop_last(), Json::Object(data));
        law_merge_adds_known_keys(head, Json::Object(data), paths.last(), key);
        if lookup(head, key) is Some {
            law_filter_keeps_known_keys(data, paths.drop_last(), key);
        }
    } else {
        crate::table::lemma_position_from(keys(merged_all(paths, Json::Object(data))), key, 0);
    }
}

/// A filtered object has each key once.
pub proof fn law_filter_has_each_key_once(paths: Seq<Seq<Step>>, data: Json)
    ensures
        crate::table::distinct(merged_all(paths, data)),
    decreases paths.len(),
{
    if paths.len() > 0 {
        law_filter_has_each_key_once(paths.drop_last(), data);
        law_merge_keeps_places(merged_all(paths.drop_last(), data), data, paths.last());
    }
}

/// Merging a path leaves the keys of the target in their places, and adds none that
/// is there.
pub proof fn law_merge_keeps_places(target: Seq<(Seq<char>, Json)>, data: Json, path: Seq<Step>)
    ensures
        keys(target).is_prefix_of(keys(merged(target, data, path))),
        crate::table::distinct(target) ==> crate::table::distinct(merged(target, data, path)),
{
    if path.len() > 0 && data is Object && path[0] is Key {
        let first = path[0]->Key_0;
        let new = merged(target, data, path);
        assert(new == target || exists|v: Json| new == #[trigger] stored(target, first, v));
        if new != target {
            let v = choose|v: Json| new == #[trigger] stored(target, first, v);
            crate::table::lemma_stored_keys(target, first, v);
        }
    }
}

/// What keys, one below the other, lead to.
pub open spec fn at(data: Json, keys: Seq<Seq<char>>) -> Option<Json>
    decreases keys.len(),
{
    if keys.len() == 0 {
        Some(data)
    } else {
        match data {
            Json::Object(object) => match lookup(object, keys[0]) {
                Some(found) => at(found, keys.skip(1)),
                None => None,
            },
            _ => None,
        }
    }
}

/// The path that is made of keys alone.
pub open spec fn key_path(keys: Seq<Seq<char>>) -> Seq<Step> {
    keys.map_values(|k: Seq<char>| Step::Key(k))
}

/// The paths that are made of keys alone.
pub open spec fn key_paths(all: Seq<Seq<Seq<char>>>) -> Seq<Seq<Step>> {
    all.map_values(|keys: Seq<Seq<char>>| key_path(keys))
}

/// Whether a value is a part of another: where keys lead to something in it they lead to
/// something in the other, to the same thing unless it is an object, and to an object
/// exactly where they do in the other.
pub open spec fn part_of(part: Json, whole: Json) -> bool {
    forall|keys: Seq<Seq<char>>| #[trigger]
        at(part, keys) is Some ==> {
            &&& at(whole, keys) is Some
            &&& at(part, keys)->0 is Object <==> at(whole, keys)->0 is Object
            &&& !(at(part, keys)->0 is Object) ==> at(part, keys) == at(whole, keys)
        }
}

/// One more key in front leads through the entry under it.
proof fn lemma_at_first(object: Seq<(Seq<char>, Json)>, keys: Seq<Seq<char>>, key: Seq<char>)
    ensures
        at(Json::Object(object), seq![key] + keys) == (match lookup(object, key) {
            Some(found) => at(found, keys),
            None => None,
        }),
{
    let all = seq![key] + keys;
    assert(all[0] == key);
    assert(all.skip(1) =~= keys);
}

proof fn lemma_rest(keys: Seq<Seq<char>>)
    requires
        keys.len() > 0,
    ensures
        seq![keys[0]] + keys.skip(1) == keys,
        key_path(keys).skip(1) == key_path(keys.skip(1)),
        key_path(keys)[0] == Step::Key(keys[0]),
        key_path(keys).len() == keys.len(),
        keys.len() > 1 ==> key_path(keys)[1] == Step::Key(keys[1]),
{
    assert(seq![keys[0]] + keys.skip(1) =~= keys);
    assert(key_path(keys).skip(1) =~= key_path(keys.skip(1)));
}

/// What stands in a part of an object is a part of what stands in the object.
proof fn lemma_inner_part(
    part: Seq<(Seq<char>, Json)>,
    whole: Seq<(Seq<char>, Json)>,
    key: Seq<char>,
)
    requires
        part_of(Json::Object(part), Json::Object(whole)),
        lookup(part, key) is Some,
    ensures
        lookup(whole, key) is Some,
        part_of(lookup(part, key)->0, lookup(whole, key)->0),
{
    let none = Seq::<Seq<char>>::empty();
    lemma_at_first(part, none, key);
    lemma_at_first(whole, none, key);
    assert(at(Json::Object(part), seq![key] + none) is Some);
    let a = lookup(part, key)->0;
    let b = lookup(whole, key)->0;
    assert forall|keys: Seq<Seq<char>>| #[trigger] at(a, keys) is Some implies {
        &&& at(b, keys) is Some
        &&& at(a, keys)->0 is Object <==> at(b, keys)->0 is Object
        &&& !(at(a, keys)->0 is Object) ==> at(a, keys) == at(b, keys)
    } by {
        lemma_at_first(part, keys, key);
        lemma_at_first(whole, keys, key);
        assert(at(Json::Object(part), seq![key] + keys) is Some);
    }
}

/// An object into which a part of what the whole holds is stored stays a part.
proof fn lemma_stored_part(
    part: Seq<(Seq<char>, Json)>,
    whole: Seq<(Seq<char>, Json)>,
    key: Seq<char>,
    value: Json,
)
    requires
        part_of(Json::Object(part), Json::Object(whole)),
        lookup(whole, key) is Some,
        part_of(value, lookup(whole, key)->0),
    ensures
        part_of(Json::Object(stored(part, key, value)), Json::Object(whole)),
{
    let new = stored(part, key, value);
    assert forall|keys: Seq<Seq<char>>| #[trigger] at(Json::Object(new), keys) is Some implies {
        &&& at(Json::Object(whole), keys) is Some
        &&& at(Json::Object(new), keys)->0 is Object <==> at(Json::Object(whole), keys)->0 is Object
        &&& !(at(Json::Object(new), keys)->0 is Object) ==> at(Json::Object(new), keys) == at(
            Json::Object(whole),
            keys,
        )
    } by {
        if keys.len() > 0 {
            lemma_rest(keys);
            lemma_at_first(new, keys.skip(1), keys[0]);
            lemma_at_first(whole, keys.skip(1), keys[0]);
            lemma_at_first(part, keys.skip(1), keys[0]);
            crate::table::lemma_lookup_stored(part, key, value, keys[0]);
            if keys[0] == key {
                assert(at(value, keys.skip(1)) is Some);
            } else {
                assert(at(Json::Object(part), keys) is Some);
            }
        }
    }
}

/// What a path of keys selects of data is a part of the data, merged into a part of it.
pub proof fn law_selection_is_part(
    target: Seq<(Seq<char>, Json)>,
    data: Seq<(Seq<char>, Json)>,
    keys: Seq<Seq<char>>,
)
    requires
        part_of(Json::Object(target), Json::Object(data)),
    ensures
        part_of(
            Json::Object(merged(target, Json::Object(data), key_path(keys))),
            Json::Object(data),
        ),
    decreases keys.len(),
{
    reveal_with_fuel(merged, 2);
    if keys.len() > 0 {
        lemma_rest(keys);
        let key = keys[0];
        if let Some(found) = lookup(data, key) {
            if keys.len() == 1 {
                lemma_stored_part(target, data, key, found);
            } else if let Json::Object(inside) = found {
                let rest = keys.skip(1);
                match lookup(target, key) {
                    None => {
                        lemma_nothing_is_part(found);
                        law_selection_is_part(Seq::empty(), inside, rest);
                        lemma_stored_part(
                            target,
                            data,
                            key,
                            Json::Object(merged(Seq::empty(), found, key_path(rest))),
                        );
                    },
                    Some(Json::Object(inner)) => {
                        lemma_inner_part(target, data, key);
                        law_selection_is_part(inner, inside, rest);
                        lemma_stored_part(
                            target,
                            data,
                            key,
                            Json::Object(merged(inner, found, key_path(rest))),
                        );
                    },
                    Some(_) => {},
                }
            }
        }
    }
}

proof fn lemma_nothing_is_part(whole: Json)
    requires
        whole is Object,
    ensures
        part_of(Json::Object(Seq::empty()), whole),
{
    let none = Json::Object(Seq::empty());
    assert forall|keys: Seq<Seq<char>>| #[trigger] at(none, keys) is Some implies {
        &&& at(whole, keys) is Some
        &&& at(none, keys)->0 is Object <==> at(whole, keys)->0 is Object
        &&& !(at(none, keys)->0 is Object) ==> at(none, keys) == at(whole, keys)
    } by {
        if keys.len() > 0 {
            let empty = Seq::<(Seq<char>, Json)>::empty();
            crate::table::lemma_position_from(crate::table::keys(empty), keys[0], 0);
        }
    }
}

/// A path of keys selects what the keys lead to in the data, at any depth.
pub proof fn law_path_is_selected(
    target: Seq<(Seq<char>, Json)>,
    data: Seq<(Seq<char>, Json)>,
    keys: Seq<Seq<char>>,
)
    requires
        keys.len() > 0,
        part_of(Json::Object(target), Json::Object(data)),
        at(Json::Object(data), keys) is Some,
    ensures
        at(Json::Object(merged(target, Json::Object(data), key_path(keys))), keys) == at(
            Json::Object(data),
            keys,
        ),
    decreases keys.len(),
{
    reveal_with_fuel(merged, 2);
    lemma_rest(keys);
    let key = keys[0];
    let rest = keys.skip(1);
    let new = merged(target, Json::Object(data), key_path(keys));
    let found = lookup(data, key)->0;
    lemma_at_first(new, rest, key);
    if keys.len() == 1 {
        crate::table::lemma_lookup_stored(target, key, found, key);
    } else {
        assert(at(found, rest) is Some);
        let inside = found->Object_0;
        let inner = match lookup(target, key) {
            None => Seq::<(Seq<char>, Json)>::empty(),
            Some(v) => v->Object_0,
        };
        if lookup(target, key) is None {
            lemma_nothing_is_part(found);
        } else {
            lemma_inner_part(target, data, key);
            let none = Seq::<Seq<char>>::empty();
            assert(at(lookup(target, key)->0, none) is Some);
        }
        law_path_is_selected(inner, inside, rest);
        crate::table::lemma_lookup_stored(
            target,
            key,
            Json::Object(merged(inner, found, key_path(rest))),
            key,
        );
    }
}

/// Merging a path of keys leaves everything as it is that stands on another way.
pub proof fn law_other_selections_are_kept(
    target: Seq<(Seq<char>, Json)>,
    data: Json,
    keys: Seq<Seq<char>>,
    other: Seq<Seq<char>>,
    n: int,
)
    requires
        0 <= n < keys.len(),
        n < other.len(),
        keys.take(n) == other.take(n),
        keys[n] != other[n],
        at(Json::Object(target), other) is Some,
    ensures
        at(Json::Object(merged(target, data, key_path(keys))), other) == at(
            Json::Object(target),
            other,
        ),
    decreases keys.len(),
{
    reveal_with_fuel(merged, 2);
    lemma_rest(keys);
    lemma_rest(other);
    let key = keys[0];
    let new = merged(target, data, key_path(keys));
    lemma_at_first(new, other.skip(1), other[0]);
    lemma_at_first(target, other.skip(1), other[0]);
    if new != target {
        let v = choose|v: Json| new == #[trigger] stored(target, key, v);
        assert(exists|v: Json| new == #[trigger] stored(target, key, v));
        crate::table::lemma_lookup_stored(target, key, v, other[0]);
        if n > 0 {
            assert(keys.take(n)[0] == other.take(n)[0]);
            let rest = keys.skip(1);
            assert(rest.take(n - 1) =~= keys.take(n).skip(1));
            assert(other.skip(1).take(n - 1) =~= other.take(n).skip(1));
            let found = lookup(data->Object_0, key)->0;
            let inner = lookup(target, key)->0->Object_0;
            assert(at(lookup(target, key)->0, other.skip(1)) is Some);
            law_other_selections_are_kept(inner, found, rest, other.skip(1), n - 1);
            crate::table::lemma_lookup_stored(
                target,
                key,
                Json::Object(merged(inner, found, key_path(rest))),
                key,
            );
        }
    }
}

/// A value that stands under its key already changes nothing where it is stored.
proof fn lemma_stored_again(object: Seq<(Seq<char>, Json)>, key: Seq<char>)
    requires
        lookup(object, key) is Some,
    ensures
        stored(object, key, lookup(object, key)->0) == object,
{
    crate::table::lemma_position_from(keys(object), key, 0);
    let i = crate::table::position_from(keys(object), key, 0)->0 as int;
    assert(keys(object)[i] == object[i].0);
    assert(object.update(i, (key, object[i].1)) =~= object);
}

/// Selecting from an object that is there whole changes nothing.
proof fn lemma_whole_is_kept(data: Seq<(Seq<char>, Json)>, keys: Seq<Seq<char>>)
    ensures
        merged(data, Json::Object(data), key_path(keys)) == data,
    decreases keys.len(),
{
    reveal_with_fuel(merged, 2);
    if keys.len() > 0 {
        lemma_rest(keys);
        if let Some(found) = lookup(data, keys[0]) {
            lemma_stored_again(data, keys[0]);
            if let Json::Object(inside) = found {
                lemma_whole_is_kept(inside, keys.skip(1));
            }
        }
    }
}

/// What is selected whole stays whole, whatever path is merged next.
pub proof fn law_whole_selections_stay(
    target: Seq<(Seq<char>, Json)>,
    data: Seq<(Seq<char>, Json)>,
    keys: Seq<Seq<char>>,
    other: Seq<Seq<char>>,
)
    requires
        other.len() > 0,
        part_of(Json::Object(target), Json::Object(data)),
        at(Json::Object(target), other) is Some,
        at(Json::Object(target), other) == at(Json::Object(data), other),
    ensures
        at(Json::Object(merged(target, Json::Object(data), key_path(keys))), other) == at(
            Json::Object(data),
            other,
        ),
    decreases keys.len(),
{
    reveal_with_fuel(merged, 2);
    lemma_rest(other);
    let new = merged(target, Json::Object(data), key_path(keys));
    let tail = other.skip(1);
    lemma_at_first(new, tail, other[0]);
    lemma_at_first(target, tail, other[0]);
    lemma_at_first(data, tail, other[0]);
    if keys.len() > 0 {
        lemma_rest(keys);
    }
    if keys.len() > 0 && lookup(data, keys[0]) is Some {
        let key = keys[0];
        let found = lookup(data, key)->0;
        if keys.len() == 1 {
            crate::table::lemma_lookup_stored(target, key, found, other[0]);
        } else if found is Object && nested_target(target, key) is Some {
            let inner = nested_target(target, key)->0;
            let rest = keys.skip(1);
            crate::table::lemma_lookup_stored(
                target,
                key,
                Json::Object(merged(inner, found, key_path(rest))),
                other[0],
            );
            if other[0] == key {
                assert(lookup(target, key) == Some(Json::Object(inner)));
                lemma_inner_part(target, data, key);
                if tail.len() == 0 {
                    assert(Json::Object(inner) == found);
                    lemma_whole_is_kept(inner, rest);
                } else {
                    law_whole_selections_stay(inner, found->Object_0, rest, tail);
                }
            }
        }
    }
}

/// Of an object, paths of keys select a part: each path that leads somewhere leads to
/// the same thing in what is selected, however many paths there are and in whatever
/// order.
pub proof fn law_every_path_is_selected(
    data: Seq<(Seq<char>, Json)>,
    all: Seq<Seq<Seq<char>>>,
    i: int,
)
    requires
        0 <= i < all.len(),
        all[i].len() > 0,
        at(Json::Object(data), all[i]) is Some,
    ensures
        part_of(Json::Object(merged_all(key_paths(all), Json::Object(data))), Json::Object(data)),
        at(Json::Object(merged_all(key_paths(all), Json::Object(data))), all[i]) == at(
            Json::Object(data),
            all[i],
        ),
    decreases all.len(),
{
    let head = all.drop_last();
    let before = merged_all(key_paths(head), Json::Object(data));
    assert(key_paths(all).drop_last() =~= key_paths(head));
    assert(key_paths(all).last() == key_path(all.last()));
    law_paths_select_a_part(data, head);
    law_paths_select_a_part(data, all);
    if i == all.len() - 1 {
        law_path_is_selected(before, data, all.last());
    } else {
        assert(head[i] == all[i]);
        law_every_path_is_selected(data, head, i);
        law_whole_selections_stay(before, data, all.last(), all[i]);
    }
}

/// What paths of keys select of an object is a part of it.
pub proof fn law_paths_select_a_part(data: Seq<(Seq<char>, Json)>, all: Seq<Seq<Seq<char>>>)
    ensures
        part_of(Json::Object(merged_all(key_paths(all), Json::Object(data))), Json::Object(data)),
    decreases all.len(),
{
    if all.len() == 0 {
        lemma_nothing_is_part(Json::Object(data));
    } else {
        let head = all.drop_last();
        assert(key_paths(all).drop_last() =~= key_paths(head));
        assert(key_paths(all).last() == key_path(all.last()));
        law_paths_select_a_part(data, head);
        law_selection_is_part(
            merged_all(key_paths(head), Json::Object(data)),
            data,
            all.last(),
        );
    }
}

/// Merging a path of keys adds nothing beside that path.
pub proof fn law_merge_adds_on_its_path(
    target: Seq<(Seq<char>, Json)>,
    data: Json,
    keys: Seq<Seq<char>>,
    other: Seq<Seq<char>>,
    n: int,
)
    requires
        0 <= n < keys.len(),
        n < other.len(),
        keys.take(n) == other.take(n),
        keys[n] != other[n],
        at(Json::Object(target), other) is None,
    ensures
        at(Json::Object(merged(target, data, key_path(keys))), other) is None,
    decreases keys.len(),
{
    reveal_with_fuel(merged, 2);
    lemma_rest(keys);
    lemma_rest(other);
    let key = keys[0];
    let new = merged(target, data, key_path(keys));
    let tail = other.skip(1);
    lemma_at_first(new, tail, other[0]);
    lemma_at_first(target, tail, other[0]);
    if new != target {
        let v = choose|v: Json| new == #[trigger] stored(target, key, v);
        assert(exists|v: Json| new == #[trigger] stored(target, key, v));
        crate::table::lemma_lookup_stored(target, key, v, other[0]);
        if n > 0 {
            assert(keys.take(n)[0] == other.take(n)[0]);
            let rest = keys.skip(1);
            assert(rest.take(n - 1) =~= keys.take(n).skip(1));
            assert(tail.take(n - 1) =~= other.take(n).skip(1));
            let found = lookup(data->Object_0, key)->0;
            let inner = nested_target(target, key)->0;
            assert(at(Json::Object(inner), tail) is None) by {
                if lookup(target, key) is None {
                    let empty = Seq::<(Seq<char>, Json)>::empty();
                    crate::table::lemma_position_from(crate::table::keys(empty), tail[0], 0);
                }
            }
            law_merge_adds_on_its_path(inner, found, rest, tail, n - 1);
            crate::table::lemma_lookup_stored(
                target,
                key,
                Json::Object(merged(inner, found, key_path(rest))),
                key,
            );
        }
    }
}

/// A single key gives the value itself where it is neither an object nor an array, the
/// value under its key where it is, and null where there is none.
pub proof fn law_single_keys_are_picked(data: Seq<(Seq<char>, Json)>, key: Seq<char>)
    ensures
        ({
            let picked = applied(Json::Object(data), seq![seq![Step::Key(key)]]);
            match lookup(data, key) {
                None => picked is Null,
                Some(Json::Array(items)) => crate::value::field(picked, key) == Some(
                    Json::Array(items),
                ) && picked->Object_0.len() == 1,
                Some(Json::Object(inner)) => crate::value::field(picked, key) == Some(
                    Json::Object(inner),
                ) && picked->Object_0.len() == 1,
                Some(value) => picked == value,
            }
        }),
{
    reveal_with_fuel(applied, 2);
    if let Some(found) = lookup(data, key) {
        let one = seq![(key, found)];
        crate::table::lemma_position_from(crate::table::keys(one), key, 0);
        assert(crate::table::keys(one)[0] == key);
    }
}

/// No path at all leaves the data as it is.
pub proof fn law_no_path_keeps_all(data: Json)
    ensures
        applied(data, Seq::empty()) == data,
{
    reveal_with_fuel(applied, 2);
}

/// More than one path, or a path of more than one step, gives of an object the object
/// that all of them select.
pub proof fn law_paths_give_an_object(
    data: Seq<(Seq<char>, Json)>,
    all: Seq<Seq<Seq<char>>>,
    i: int,
)
    requires
        0 <= i < all.len(),
        all[i].len() > 0,
        all.len() > 1 || all[0].len() > 1,
        at(Json::Object(data), all[i]) is Some,
    ensures
        at(applied(Json::Object(data), key_paths(all)), all[i]) == at(
            Json::Object(data),
            all[i],
        ),
        part_of(applied(Json::Object(data), key_paths(all)), Json::Object(data)),
{
    reveal_with_fuel(applied, 2);
    assert(key_paths(all)[0] == key_path(all[0]));
    assert(key_path(all[0]).len() == all[0].len());
    law_every_path_is_selected(data, all, i);
}

/// A slice behind a key gives the items from its start up to its end, each in its turn,
/// as far as the array goes.
pub proof fn law_slices_take_their_items(
    target: Seq<(Seq<char>, Json)>,
    data: Seq<(Seq<char>, Json)>,
    key: Seq<char>,
    start: nat,
    end: nat,
)
    requires
        lookup(data, key) is Some,
        lookup(data, key)->0 is Array,
    ensures
        ({
            let items = lookup(data, key)->0->Array_0;
            let new = merged(
                target,
                Json::Object(data),
                seq![Step::Key(key), Step::Slice { start, end }],
            );
            &&& lookup(new, key) matches Some(Json::Array(taken))
            &&& forall|i: int|
                0 <= i < taken.len() ==> start + i < end && start + i < items.len()
                    && #[trigger] taken[i] == items[start + i]
            &&& forall|i: int|
                start <= i < end && i < items.len() ==> i - start < taken.len() && #[trigger] items[i]
                    == taken[i - start]
        }),
{
    reveal_with_fuel(merged, 2);
    reveal_with_fuel(selected_items, 2);
    let items = lookup(data, key)->0->Array_0;
    let path = seq![Step::Key(key), Step::Slice { start, end }];
    crate::table::lemma_lookup_stored(
        target,
        key,
        Json::Array(selected_items(sliced(items, start, end), path)),
        key,
    );
}

/// What follows a slice is selected of each item that the slice takes.
pub proof fn law_steps_behind_slices_select_of_each_item(
    data: Seq<(Seq<char>, Json)>,
    key: Seq<char>,
    start: nat,
    end: nat,
    keys: Seq<Seq<char>>,
    i: int,
)
    requires
        lookup(data, key) is Some,
        lookup(data, key)->0 is Array,
        keys.len() > 0,
        0 <= i,
        start + i < end,
        start + i < lookup(data, key)->0->Array_0.len(),
        lookup(data, key)->0->Array_0[start + i] is Object,
        at(lookup(data, key)->0->Array_0[start + i], keys) is Some,
    ensures
        ({
            let items = lookup(data, key)->0->Array_0;
            let path = seq![Step::Key(key), Step::Slice { start, end }] + key_path(keys);
            let new = merged(Seq::empty(), Json::Object(data), path);
            &&& lookup(new, key) matches Some(Json::Array(taken))
            &&& i < taken.len()
            &&& at(taken[i], keys) == at(items[start + i], keys)
            &&& part_of(taken[i], items[start + i])
        }),
{
    reveal_with_fuel(merged, 2);
    reveal_with_fuel(selected_items, 2);
    let items = lookup(data, key)->0->Array_0;
    let path = seq![Step::Key(key), Step::Slice { start, end }] + key_path(keys);
    let none = Seq::<(Seq<char>, Json)>::empty();
    let taken = sliced(items, start, end);
    let item = items[start + i];
    assert(path.skip(2) =~= key_path(keys));
    assert(taken[i] == item);
    let chosen = selected_items(taken, path);
    assert(chosen[i] == Json::Object(merged(none, item, key_path(keys))));
    lemma_nothing_is_part(item);
    law_path_is_selected(none, item->Object_0, keys);
    law_selection_is_part(none, item->Object_0, keys);
    crate::table::lemma_lookup_stored(none, key, Json::Array(chosen), key);
}

/// Keys with dots between them are a path of those keys.
pub proof fn law_dotted_keys_are_paths(keys: Seq<Seq<char>>)
    requires
        keys.len() > 0,
        forall|i: int|
            0 <= i < keys.len() ==> (#[trigger] keys[i]).len() > 0 && !keys[i].contains('.')
                && !keys[i].contains('['),
    ensures
        token_steps(join(keys, "."@)) == key_path(keys),
{
    reveal_strlit(".");
    assert("."@ =~= seq!['.']);
    let s = join(keys, "."@);
    crate::text::law_joined_pieces_are_found(keys, '.');
    lemma_all_kept(keys);
    lemma_no_bracket(keys);
    lemma_find_char_from(s, '[', 0);
    if let Some(i) = find_char_from(s, '[', 0) {
        assert(s.contains(s[i as int]));
    }
    assert(token_steps(s) =~= key_path(keys));
}

proof fn lemma_all_kept(parts: Seq<Seq<char>>)
    requires
        forall|i: int| 0 <= i < parts.len() ==> (#[trigger] parts[i]).len() > 0,
    ensures
        non_empty(parts) == parts,
    decreases parts.len(),
{
    if parts.len() > 0 {
        let head = parts.drop_last();
        assert forall|i: int| 0 <= i < head.len() implies (#[trigger] head[i]).len() > 0 by {
            assert(head[i] == parts[i]);
        }
        lemma_all_kept(head);
        assert(parts[parts.len() - 1].len() > 0);
        assert(non_empty(parts) =~= parts);
    }
}

proof fn lemma_no_bracket(keys: Seq<Seq<char>>)
    requires
        forall|i: int| 0 <= i < keys.len() ==> !(#[trigger] keys[i]).contains('['),
    ensures
        !join(keys, "."@).contains('['),
    decreases keys.len(),
{
    reveal_strlit(".");
    let s = join(keys, "."@);
    if keys.len() > 1 {
        let head = keys.drop_last();
        assert forall|i: int| 0 <= i < head.len() implies !(#[trigger] head[i]).contains('[') by {
            assert(head[i] == keys[i]);
        }
        lemma_no_bracket(head);
        let before = join(head, "."@);
        if s.contains('[') {
            let k = choose|k: int| 0 <= k < s.len() && s[k] == '[';
            if k < before.len() {
                assert(before[k] == '[');
            } else if k > before.len() {
                let last = keys[keys.len() - 1];
                assert(last[k - before.len() - 1] == '[');
            }
        }
    } else if keys.len() == 1 {
        assert(!keys[0].contains('['));
    }
}

/// Two numbers between brackets are the bounds of a slice, and one is the item of that
/// number.
pub proof fn law_brackets_are_slices(start: nat, end: nat)
    requires
        start < usize::MAX,
        end <= usize::MAX,
    ensures
        slice_steps(decimal(start) + seq![','] + decimal(end)) == seq![Step::Slice { start, end }],
        slice_steps(decimal(start)) == seq![Step::Slice { start, end: start + 1 }],
{
    crate::text::law_numbers_are_read_back(start, usize::MAX as nat);
    crate::text::law_numbers_are_read_back(end, usize::MAX as nat);
    lemma_no_comma(start);
    lemma_no_comma(end);
    crate::text::law_pieces_are_parted(decimal(start), decimal(end), ',');
    crate::text::law_pieces_are_parted(decimal(end), Seq::empty(), ',');
    assert(seq![decimal(start)] + seq![decimal(end)] =~= seq![decimal(start), decimal(end)]);
}

proof fn lemma_no_comma(n: nat)
    ensures
        !decimal(n).contains(','),
    decreases n,
{
    if n >= 10 {
        lemma_no_comma(n / 10);
        let d = decimal(n);
        if d.contains(',') {
            let k = choose|k: int| 0 <= k < d.len() && d[k] == ',';
            if k < d.len() - 1 {
                assert(decimal(n / 10)[k] == ',');
            }
        }
    }
}

/// A slice stands between the keys before its bracket and the steps behind it.
pub proof fn law_slices_stand_between_keys(
    front: Seq<char>,
    inner: Seq<char>,
    rest: Seq<char>,
)
    requires
        !front.contains('['),
        !inner.contains(']'),
    ensures
        token_steps(front + seq!['['] + inner + seq![']']) == key_steps(front) + slice_steps(inner),
        token_steps(front + seq!['['] + inner + seq![']', '.'] + rest) == key_steps(front)
            + slice_steps(inner) + token_steps(rest),
{
    lemma_slice_between(front, inner, Seq::empty());
    lemma_slice_between(front, inner, seq!['.'] + rest);
    let plain = front + seq!['['] + inner + seq![']'];
    assert(plain + Seq::empty() =~= plain);
    let s = front + seq!['['] + inner + seq![']', '.'] + rest;
    assert(s =~= plain + (seq!['.'] + rest));
    let close = (front.len() + 1 + inner.len()) as nat;
    assert(s.skip(close as int + 2) =~= rest);
    reveal_with_fuel(token_steps, 2);
    lemma_find_char_from(Seq::empty(), '[', 0);
    lemma_no_steps();
    assert(token_steps(plain) =~= key_steps(front) + slice_steps(inner));
}

proof fn lemma_no_steps()
    ensures
        token_steps(Seq::empty()) == Seq::<Step>::empty(),
{
    let none = Seq::<char>::empty();
    lemma_find_char_from(none, '[', 0);
    assert(split(none, '.') =~= seq![Seq::<char>::empty()]);
    let one = seq![Seq::<char>::empty()];
    assert(one.drop_last() =~= Seq::empty());
    reveal_with_fuel(non_empty, 2);
    assert(non_empty(one).len() == 0);
    assert(token_steps(none) =~= Seq::<Step>::empty());
}

proof fn lemma_slice_between(front: Seq<char>, inner: Seq<char>, rest: Seq<char>)
    requires
        !front.contains('['),
        !inner.contains(']'),
    ensures
        ({
            let s = front + seq!['['] + inner + seq![']'] + rest;
            let close = (front.len() + 1 + inner.len()) as nat;
            token_steps(s) == key_steps(front) + slice_steps(inner) + token_steps(
                after_slice(s, close),
            )
        }),
{
    let s = front + seq!['['] + inner + seq![']'] + rest;
    let close = (front.len() + 1 + inner.len()) as nat;
    lemma_find_char_from(s, '[', 0);
    assert(s[front.len() as int] == '[');
    assert forall|j: int| 0 <= j < front.len() implies s[j] != '[' by {
        assert(front.contains(front[j]));
    }
    lemma_find_char_from(s, ']', front.len());
    assert(s[close as int] == ']');
    assert forall|j: int| front.len() <= j < close implies s[j] != ']' by {
        if j > front.len() {
            assert(s[j] == inner[j - front.len() - 1]);
            assert(inner.contains(inner[j - front.len() - 1]));
        }
    }
    assert(s.take(front.len() as int) =~= front);
    assert(s.subrange(front.len() as int + 1, close as int) =~= inner);
}

} // verus!
