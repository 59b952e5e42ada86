//! Suggestions for mistyped command names.

use vstd::prelude::*;
use vstd::utf8::encode_utf8;
use crate::text::{chars_of, contains, occurs, same, starts_with, texts, opt_text};

verus! {

/// The least number of insertions, deletions and replacements of single
/// characters that turn `a` into `b`.
pub open spec fn distance(a: Seq<char>, b: Seq<char>) -> nat
    decreases a.len() + b.len(),
{
    if a.len() == 0 {
        b.len()
    } else if b.len() == 0 {
        a.len()
    } else if a.last() == b.last() {
        distance(a.drop_last(), b.drop_last())
    } else {
        1 + least(
            distance(a.drop_last(), b.drop_last()),
            distance(a.drop_last(), b),
            distance(a, b.drop_last()),
        )
    }
}

/// The least of three numbers.
pub open spec fn least(x: nat, y: nat, z: nat) -> nat {
    if x <= y && x <= z {
        x
    } else if y <= z {
        y
    } else {
        z
    }
}

/// The distance is at most the length of the longer text.
pub proof fn lemma_distance_bound(a: Seq<char>, b: Seq<char>)
    ensures
        distance(a, b) <= a.len() || distance(a, b) <= b.len(),
    decreases a.len() + b.len(),
{
    if a.len() > 0 && b.len() > 0 {
        lemma_distance_bound(a.drop_last(), b.drop_last());
    }
}

/// Computes the Levenshtein edit distance between two strings.
pub fn levenshtein(a: &str, b: &str) -> (r: usize)
    ensures
        r == distance(a@, b@),
{
    let x = chars_of(a);
    let y = chars_of(b);
    let m: usize = x.len();
    let n: usize = y.len();
    let mut row: Vec<usize> = Vec::new();
    let mut j: usize = 0;
    row.push(0);
    assert(distance(x@.take(0), y@.take(0)) == 0);
    while j < n
        invariant
            j <= n,
            n == y@.len(),
            row@.len() == j + 1,
            forall|k: int| 0 <= k <= j ==> #[trigger] row@[k] == distance(x@.take(0), y@.take(k)),
        decreases n - j,
    {
        j += 1;
        row.push(j);
        assert(distance(x@.take(0), y@.take(j as int)) == j);
    }
    let mut i: usize = 0;
    while i < m
        invariant
            i <= m,
            m == x.len(),
            n == y.len(),
            row@.len() == n + 1,
            forall|k: int|
                0 <= k <= n ==> #[trigger] row@[k] == distance(x@.take(i as int), y@.take(k)),
        decreases m - i,
    {
        let ghost old_row = row@;
        let mut prev: usize = row[0];
        row.set(0, i + 1);
        assert(distance(x@.take(i + 1), y@.take(0)) == i + 1);
        let mut j: usize = 0;
        while j < n
            invariant
                i < m,
                m == x.len(),
                n == y.len(),
                j <= n,
                row@.len() == n + 1,
                old_row.len() == n + 1,
                prev == old_row[j as int],
                forall|k: int|
                    0 <= k <= n ==> #[trigger] old_row[k] == distance(
                        x@.take(i as int),
                        y@.take(k),
                    ),
                forall|k: int|
                    0 <= k <= j ==> #[trigger] row@[k] == distance(x@.take(i + 1), y@.take(k)),
                forall|k: int| j < k <= n ==> #[trigger] row@[k] == old_row[k],
            decreases n - j,
        {
            let ghost xa = x@.take(i + 1);
            let ghost yb = y@.take(j + 1);
            assert(xa.drop_last() =~= x@.take(i as int));
            assert(yb.drop_last() =~= y@.take(j as int));
            assert(xa.last() == x@[i as int] && yb.last() == y@[j as int]);
            let above: usize = row[j + 1];
            let left: usize = row[j];
            assert(above == old_row[j + 1]);
            if x[i] == y[j] {
                row.set(j + 1, prev);
            } else {
                let mut low: usize = prev;
                if above < low {
                    low = above;
                }
                if left < low {
                    low = left;
                }
                proof {
                    lemma_distance_bound(x@.take(i as int), y@.take(j as int));
                    assert(low <= prev);
                }
                row.set(j + 1, low + 1);
            }
            assert(row@[j + 1] == distance(xa, yb));
            prev = above;
            j += 1;
        }
        i += 1;
    }
    assert(x@.take(m as int) =~= x@);
    assert(y@.take(n as int) =~= y@);
    assert(row@[n as int] == distance(a@, b@));
    row[n]
}

/// What `str::to_lowercase` gives for a text.
pub uninterp spec fn unicode_lowercase(s: Seq<char>) -> Seq<char>;

/// `str::to_lowercase`: the text with every character put in the lowercase form
/// that Unicode gives it. Only that the result depends on the text alone is
/// claimed.
#[verifier::external_body]
pub(crate) fn to_lowercase(s: &str) -> (r: String)
    ensures
        r@ == unicode_lowercase(s@),
{
    s.to_lowercase()
}

/// How far a candidate may be from the input, by the length of the input in
/// bytes.
pub open spec fn threshold(bytes: nat) -> nat {
    if bytes <= 4 {
        2
    } else {
        bytes / 2
    }
}

/// How badly a candidate matches: first those that the input begins, then
/// those that hold it, then those that are near, each by distance.
pub open spec fn score(limit: nat, input: Seq<char>, candidate: Seq<char>) -> Option<nat> {
    let d = distance(input, candidate);
    if input.is_prefix_of(candidate) && candidate != input {
        Some(d)
    } else if occurs(candidate, input) {
        Some(100 + d)
    } else if d <= limit {
        Some(200 + d)
    } else {
        None
    }
}

/// Whether the candidate at `i` is the first of those that match best.
pub open spec fn best_at(limit: nat, input: Seq<char>, candidates: Seq<Seq<char>>, i: int) -> bool {
    &&& 0 <= i < candidates.len()
    &&& score(limit, input, candidates[i]) is Some
    &&& forall|j: int|
        0 <= j < candidates.len() && (#[trigger] score(limit, input, candidates[j])) is Some
            ==> score(limit, input, candidates[i])->0 <= score(limit, input, candidates[j])->0
    &&& forall|j: int|
        0 <= j < i && (#[trigger] score(limit, input, candidates[j])) is Some ==> score(
            limit,
            input,
            candidates[i],
        )->0 < score(limit, input, candidates[j])->0
}

/// Whether no candidate matches.
pub open spec fn none_matches(limit: nat, input: Seq<char>, candidates: Seq<Seq<char>>) -> bool {
    forall|j: int|
        0 <= j < candidates.len() ==> (#[trigger] score(limit, input, candidates[j])) is None
}

/// Finds the first of the candidates that match the input best. Input and
/// candidates are given in lowercase.
pub fn best_match(limit: usize, input: &str, candidates: &Vec<String>) -> (r: Option<usize>)
    ensures
        match r {
            Some(i) => best_at(limit as nat, input@, texts(candidates@), i as int),
            None => none_matches(limit as nat, input@, texts(candidates@)),
        },
{
    let ghost all = texts(candidates@);
    let mut best: Option<usize> = None;
    let mut best_score: u128 = 0;
    let mut i: usize = 0;
    while i < candidates.len()
        invariant
            i <= candidates@.len(),
            all == texts(candidates@),
            match best {
                Some(b) => {
                    &&& b < i
                    &&& score(limit as nat, input@, all[b as int]) == Some(best_score as nat)
                    &&& forall|j: int|
                        0 <= j < i && (#[trigger] score(limit as nat, input@, all[j])) is Some
                            ==> best_score <= score(limit as nat, input@, all[j])->0
                    &&& forall|j: int|
                        0 <= j < b && (#[trigger] score(limit as nat, input@, all[j])) is Some
                            ==> best_score < score(limit as nat, input@, all[j])->0
                },
                None => forall|j: int|
                    0 <= j < i ==> (#[trigger] score(limit as nat, input@, all[j])) is None,
            },
        decreases candidates.len() - i,
    {
        let candidate = candidates[i].as_str();
        assert(all[i as int] == candidate@);
        let d: usize = levenshtein(input, candidate);
        let points: Option<u128> = if starts_with(candidate, input) && !same(candidate, input) {
            Some(d as u128)
        } else if contains(candidate, input) {
            Some(100 + d as u128)
        } else if d <= limit {
            Some(200 + d as u128)
        } else {
            None
        };
        if let Some(p) = points {
            let better = match best {
                Some(_) => p < best_score,
                None => true,
            };
            if better {
                best = Some(i);
                best_score = p;
            }
        }
        i += 1;
    }
    best
}

/// The lowercase forms of several texts.
pub open spec fn all_lowercase(s: Seq<Seq<char>>) -> Seq<Seq<char>> {
    s.map_values(|t: Seq<char>| unicode_lowercase(t))
}

/// The first of the candidates that match the input best, letters compared in
/// lowercase, and nothing where none matches.
pub open spec fn suggested(input: Seq<char>, candidates: Seq<Seq<char>>) -> Option<Seq<char>> {
    let limit = threshold(encode_utf8(input).len() as usize as nat);
    let lower = unicode_lowercase(input);
    let all = all_lowercase(candidates);
    if none_matches(limit, lower, all) {
        None
    } else {
        Some(candidates[choose|i: int| best_at(limit, lower, all, i)])
    }
}

/// Only one candidate is the first of those that match best.
proof fn lemma_best_is_unique(
    limit: nat,
    input: Seq<char>,
    candidates: Seq<Seq<char>>,
    i: int,
    j: int,
)
    requires
        best_at(limit, input, candidates, i),
        best_at(limit, input, candidates, j),
    ensures
        i == j,
{
    assert(score(limit, input, candidates[i]) is Some);
    assert(score(limit, input, candidates[j]) is Some);
}

/// Suggests the closest command name from a set using tiered matching:
/// prefix match → contains match → fuzzy (edit distance) match.
pub fn suggest(input: &str, candidates: &Vec<String>) -> (r: Option<String>)
    ensures
        opt_text(r) == suggested(input@, texts(candidates@)),
{
    let bytes: usize = input.len();
    let limit: usize = if bytes <= 4 {
        2
    } else {
        bytes / 2
    };
    assert(bytes == encode_utf8(input@).len() as usize);
    assert(limit == threshold(bytes as nat));
    let lower = to_lowercase(input);
    let mut lowered: Vec<String> = Vec::new();
    let ghost all = all_lowercase(texts(candidates@));
    let mut i: usize = 0;
    while i < candidates.len()
        invariant
            i <= candidates@.len(),
            all == all_lowercase(texts(candidates@)),
            texts(lowered@) == all.take(i as int),
        decreases candidates.len() - i,
    {
        let ghost was = texts(lowered@);
        lowered.push(to_lowercase(candidates[i].as_str()));
        assert(all[i as int] == unicode_lowercase(candidates@[i as int]@));
        assert(texts(lowered@) =~= was.push(all[i as int]));
        assert(all.take(i + 1) =~= all.take(i as int).push(all[i as int]));
        i += 1;
    }
    assert(all.take(all.len() as int) =~= all);
    match best_match(limit, lower.as_str(), &lowered) {
        Some(i) => {
            assert(best_at(limit as nat, lower@, all, i as int));
            proof {
                let first = choose|k: int| best_at(limit as nat, lower@, all, k);
                lemma_best_is_unique(limit as nat, lower@, all, first, i as int);
                assert(score(limit as nat, lower@, all[i as int]) is Some);
                assert(texts(candidates@)[i as int] == candidates@[i as int]@);
            }
            Some(candidates[i].clone())
        },
        None => None,
    }
}

// ---------------------------------------------------------------------------
// Laws
// ---------------------------------------------------------------------------

/// The distance does not depend on the direction.
pub proof fn law_distance_symmetric(a: Seq<char>, b: Seq<char>)
    ensures
        distance(a, b) == distance(b, a),
    decreases a.len() + b.len(),
{
    if a.len() > 0 && b.len() > 0 {
        law_distance_symmetric(a.drop_last(), b.drop_last());
        law_distance_symmetric(a.drop_last(), b);
        law_distance_symmetric(a, b.drop_last());
    }
}

/// Exactly equal texts have no distance.
pub proof fn law_distance_zero(a: Seq<char>, b: Seq<char>)
    ensures
        distance(a, b) == 0 <==> a == b,
    decreases a.len() + b.len(),
{
    if a.len() > 0 && b.len() > 0 {
        if a.last() == b.last() {
            law_distance_zero(a.drop_last(), b.drop_last());
            if a.drop_last() == b.drop_last() {
                assert(a =~= a.drop_last().push(a.last()));
                assert(b =~= b.drop_last().push(b.last()));
            }
        }
    } else if a.len() == 0 && b.len() == 0 {
        assert(a =~= b);
    }
}

/// The distance is at least the difference of the lengths.
pub proof fn law_distance_at_least_length_difference(a: Seq<char>, b: Seq<char>)
    ensures
        distance(a, b) >= a.len() - b.len(),
        distance(a, b) >= b.len() - a.len(),
    decreases a.len() + b.len(),
{
    if a.len() > 0 && b.len() > 0 {
        law_distance_at_least_length_difference(a.drop_last(), b.drop_last());
        law_distance_at_least_length_difference(a.drop_last(), b);
        law_distance_at_least_length_difference(a, b.drop_last());
    }
}

/// One character more or less changes the distance by one at most.
proof fn lemma_neighbours(a: Seq<char>, b: Seq<char>)
    requires
        a.len() > 0,
    ensures
        distance(a, b) <= 1 + distance(a.drop_last(), b),
        distance(a.drop_last(), b) <= 1 + distance(a, b),
    decreases a.len() + b.len(),
{
    let c = a.drop_last();
    if b.len() > 0 {
        let d = b.drop_last();
        lemma_neighbours(a, d);
        lemma_neighbours(b, c);
        law_distance_symmetric(b, c);
        law_distance_symmetric(d, c);
        if c.len() > 0 {
            lemma_neighbours(c, b);
            lemma_neighbours(c, d);
        }
    }
}

/// The last characters of two texts cost one edit at most, and none where they are
/// equal.
proof fn lemma_last_characters(a: Seq<char>, b: Seq<char>)
    requires
        a.len() > 0,
        b.len() > 0,
    ensures
        distance(a, b) <= 1 + distance(a.drop_last(), b),
        distance(a, b) <= 1 + distance(a, b.drop_last()),
        distance(a, b) <= distance(a.drop_last(), b.drop_last()) + (if a.last() == b.last() {
            0nat
        } else {
            1
        }),
{
    lemma_neighbours(a, b);
    lemma_neighbours(b, a);
    law_distance_symmetric(a, b);
    law_distance_symmetric(b.drop_last(), a);
}

/// A way over a third text is no shorter.
pub proof fn law_distance_triangle(a: Seq<char>, b: Seq<char>, c: Seq<char>)
    ensures
        distance(a, c) <= distance(a, b) + distance(b, c),
    decreases a.len() + b.len() + c.len(),
{
    if a.len() == 0 {
        law_distance_at_least_length_difference(b, c);
    } else if c.len() == 0 {
        law_distance_at_least_length_difference(a, b);
    } else if b.len() == 0 {
        lemma_distance_bound(a, c);
    } else {
        lemma_last_characters(a, c);
        law_distance_triangle(a.drop_last(), b, c);
        law_distance_triangle(a, b, c.drop_last());
        law_distance_triangle(a, b.drop_last(), c);
        law_distance_triangle(a, b.drop_last(), c.drop_last());
        law_distance_triangle(a.drop_last(), b.drop_last(), c);
        law_distance_triangle(a.drop_last(), b.drop_last(), c.drop_last());
    }
}

/// Whether `b` arises from `a` by one character put in at a position.
pub open spec fn inserts(a: Seq<char>, b: Seq<char>, i: int) -> bool {
    0 <= i < b.len() && b.remove(i) == a
}

/// Whether `b` arises from `a` by another character put at a position.
pub open spec fn substitutes(a: Seq<char>, b: Seq<char>, i: int) -> bool {
    0 <= i < a.len() && a.len() == b.len() && a.remove(i) == b.remove(i)
}

/// Whether `b` arises from `a` by the insertion, deletion or substitution of one
/// character.
pub open spec fn one_edit(a: Seq<char>, b: Seq<char>) -> bool {
    ||| exists|i: int| inserts(a, b, i)
    ||| exists|i: int| inserts(b, a, i)
    ||| exists|i: int| substitutes(a, b, i)
}

/// Whether each of the texts arises from the one before it by one edit.
pub open spec fn edited_in_turn(all: Seq<Seq<char>>) -> bool {
    forall|i: int| 0 <= i < all.len() - 1 ==> one_edit(#[trigger] all[i], all[i + 1])
}

/// A common end does not add to the distance.
proof fn lemma_common_end(a: Seq<char>, b: Seq<char>, end: Seq<char>)
    ensures
        distance(a + end, b + end) == distance(a, b),
    decreases end.len(),
{
    if end.len() == 0 {
        assert(a + end =~= a);
        assert(b + end =~= b);
    } else {
        lemma_common_end(a, b, end.drop_last());
        assert((a + end).drop_last() =~= a + end.drop_last());
        assert((b + end).drop_last() =~= b + end.drop_last());
    }
}

proof fn lemma_insertion(a: Seq<char>, b: Seq<char>, i: int)
    requires
        inserts(a, b, i),
    ensures
        distance(a, b) <= 1,
        distance(b, a) <= 1,
{
    let head = b.take(i);
    let long = b.take(i + 1);
    let end = b.skip(i + 1);
    assert(b =~= long + end);
    assert(a =~= head + end);
    lemma_common_end(long, head, end);
    lemma_neighbours(long, head);
    assert(long.drop_last() =~= head);
    law_distance_zero(head, head);
    law_distance_symmetric(a, b);
}

proof fn lemma_one_edit(a: Seq<char>, b: Seq<char>)
    requires
        one_edit(a, b),
    ensures
        distance(a, b) <= 1,
{
    if exists|i: int| inserts(a, b, i) {
        lemma_insertion(a, b, choose|i: int| inserts(a, b, i));
    } else if exists|i: int| inserts(b, a, i) {
        lemma_insertion(b, a, choose|i: int| inserts(b, a, i));
    } else {
        let i = choose|i: int| substitutes(a, b, i);
        let was = a.take(i + 1);
        let now = b.take(i + 1);
        let end = a.skip(i + 1);
        assert(a =~= was + end);
        assert forall|k: int| i < k < b.len() implies b[k] == a[k] by {
            assert(a.remove(i)[k - 1] == b.remove(i)[k - 1]);
        }
        assert(b =~= now + end);
        lemma_common_end(was, now, end);
        lemma_last_characters(was, now);
        assert forall|k: int| 0 <= k < i implies b[k] == a[k] by {
            assert(a.remove(i)[k] == b.remove(i)[k]);
        }
        assert(was.drop_last() =~= now.drop_last());
        law_distance_zero(was.drop_last(), now.drop_last());
    }
}

/// No edits of single characters turn one text into another in fewer steps than their
/// distance.
pub proof fn law_no_shorter_edits(all: Seq<Seq<char>>)
    requires
        all.len() > 0,
        edited_in_turn(all),
    ensures
        distance(all[0], all.last()) <= all.len() - 1,
    decreases all.len(),
{
    if all.len() == 1 {
        law_distance_zero(all[0], all[0]);
    } else {
        let head = all.drop_last();
        assert forall|i: int| 0 <= i < head.len() - 1 implies one_edit(
            #[trigger] head[i],
            head[i + 1],
        ) by {
            assert(one_edit(all[i], all[i + 1]));
        }
        law_no_shorter_edits(head);
        assert(one_edit(all[all.len() - 2], all[all.len() - 2 + 1]));
        lemma_one_edit(head.last(), all.last());
        law_distance_triangle(all[0], head.last(), all.last());
    }
}

/// Texts with one character behind each.
spec fn all_longer(all: Seq<Seq<char>>, c: char) -> Seq<Seq<char>> {
    Seq::new(all.len(), |i: int| all[i].push(c))
}

/// Texts that lead from one to the other by single edits, as few as there are.
pub closed spec fn edits_between(a: Seq<char>, b: Seq<char>) -> Seq<Seq<char>>
    decreases a.len() + b.len(),
{
    if a.len() == 0 && b.len() == 0 {
        seq![a]
    } else if a.len() == 0 {
        edits_between(a, b.drop_last()).push(b)
    } else if b.len() == 0 {
        seq![a] + edits_between(a.drop_last(), b)
    } else if a.last() == b.last() {
        all_longer(edits_between(a.drop_last(), b.drop_last()), a.last())
    } else {
        let both = distance(a.drop_last(), b.drop_last());
        let fewer = distance(a.drop_last(), b);
        let more = distance(a, b.drop_last());
        if both <= fewer && both <= more {
            all_longer(edits_between(a.drop_last(), b.drop_last()), a.last()).push(b)
        } else if fewer <= more {
            seq![a] + edits_between(a.drop_last(), b)
        } else {
            edits_between(a, b.drop_last()).push(b)
        }
    }
}

proof fn lemma_edit_before_end(a: Seq<char>, b: Seq<char>, c: char)
    requires
        one_edit(a, b),
    ensures
        one_edit(a.push(c), b.push(c)),
{
    if exists|i: int| inserts(a, b, i) {
        let i = choose|i: int| inserts(a, b, i);
        assert(b.push(c).remove(i) =~= b.remove(i).push(c));
        assert(inserts(a.push(c), b.push(c), i));
    } else if exists|i: int| inserts(b, a, i) {
        let i = choose|i: int| inserts(b, a, i);
        assert(a.push(c).remove(i) =~= a.remove(i).push(c));
        assert(inserts(b.push(c), a.push(c), i));
    } else {
        let i = choose|i: int| substitutes(a, b, i);
        assert(a.push(c).remove(i) =~= a.remove(i).push(c));
        assert(b.push(c).remove(i) =~= b.remove(i).push(c));
        assert(substitutes(a.push(c), b.push(c), i));
    }
}

proof fn lemma_all_longer(all: Seq<Seq<char>>, c: char)
    requires
        edited_in_turn(all),
    ensures
        edited_in_turn(all_longer(all, c)),
{
    let longer = all_longer(all, c);
    assert forall|i: int| 0 <= i < longer.len() - 1 implies one_edit(
        #[trigger] longer[i],
        longer[i + 1],
    ) by {
        assert(one_edit(all[i], all[i + 1]));
        lemma_edit_before_end(all[i], all[i + 1], c);
    }
}

proof fn lemma_deletion_first(a: Seq<char>, rest: Seq<Seq<char>>)
    requires
        a.len() > 0,
        rest.len() > 0,
        rest[0] == a.drop_last(),
        edited_in_turn(rest),
    ensures
        edited_in_turn(seq![a] + rest),
{
    let all = seq![a] + rest;
    assert(a.remove(a.len() - 1) =~= a.drop_last());
    assert(inserts(rest[0], a, a.len() - 1));
    assert forall|i: int| 0 <= i < all.len() - 1 implies one_edit(
        #[trigger] all[i],
        all[i + 1],
    ) by {
        if i > 0 {
            assert(one_edit(rest[i - 1], rest[i - 1 + 1]));
        }
    }
}

proof fn lemma_edit_last(all: Seq<Seq<char>>, b: Seq<char>)
    requires
        all.len() > 0,
        edited_in_turn(all),
        one_edit(all.last(), b),
    ensures
        edited_in_turn(all.push(b)),
{
    let more = all.push(b);
    assert forall|i: int| 0 <= i < more.len() - 1 implies one_edit(
        #[trigger] more[i],
        more[i + 1],
    ) by {
        if i < all.len() - 1 {
            assert(one_edit(all[i], all[i + 1]));
        }
    }
}

/// The distance is reached: as many edits of single characters turn the one text into
/// the other.
pub proof fn law_distance_is_reached(a: Seq<char>, b: Seq<char>)
    ensures
        edited_in_turn(edits_between(a, b)),
        edits_between(a, b).len() == distance(a, b) + 1,
        edits_between(a, b)[0] == a,
        edits_between(a, b).last() == b,
    decreases a.len() + b.len(), 1nat,
{
    if a.len() == 0 && b.len() == 0 {
        assert(a =~= b);
    } else if a.len() == 0 {
        lemma_insertion_last(a, b);
    } else if b.len() == 0 {
        law_distance_is_reached(a.drop_last(), b);
        lemma_deletion_first(a, edits_between(a.drop_last(), b));
    } else {
        let x = a.last();
        let inner = edits_between(a.drop_last(), b.drop_last());
        let longer = all_longer(inner, x);
        law_distance_is_reached(a.drop_last(), b.drop_last());
        lemma_all_longer(inner, x);
        assert(a.drop_last().push(x) =~= a);
        assert(b.drop_last().push(b.last()) =~= b);
        assert(longer[0] == a);
        assert(longer.last() == b.drop_last().push(x));
        if x != b.last() {
            let both = distance(a.drop_last(), b.drop_last());
            let fewer = distance(a.drop_last(), b);
            let more = distance(a, b.drop_last());
            if both <= fewer && both <= more {
                assert(longer.last().remove(b.len() - 1) =~= b.remove(b.len() - 1));
                assert(substitutes(longer.last(), b, b.len() - 1));
                lemma_edit_last(longer, b);
            } else if fewer <= more {
                law_distance_is_reached(a.drop_last(), b);
                lemma_deletion_first(a, edits_between(a.drop_last(), b));
            } else {
                lemma_insertion_last(a, b);
            }
        }
    }
}

proof fn lemma_insertion_last(a: Seq<char>, b: Seq<char>)
    requires
        b.len() > 0,
    ensures
        ({
            let all = edits_between(a, b.drop_last()).push(b);
            &&& edited_in_turn(all)
            &&& all.len() == distance(a, b.drop_last()) + 2
            &&& all[0] == a
            &&& all.last() == b
        }),
    decreases a.len() + b.len(), 0nat,
{
    law_distance_is_reached(a, b.drop_last());
    assert(b.remove(b.len() - 1) =~= b.drop_last());
    assert(inserts(b.drop_last(), b, b.len() - 1));
    lemma_edit_last(edits_between(a, b.drop_last()), b);
}

/// A candidate that the input begins is preferred to one that merely holds the
/// input, as long as its distance is under a hundred.
pub proof fn law_prefix_before_containing(
    limit: nat,
    input: Seq<char>,
    prefixed: Seq<char>,
    holding: Seq<char>,
)
    requires
        input.is_prefix_of(prefixed),
        prefixed != input,
        distance(input, prefixed) < 100,
        occurs(holding, input),
        !input.is_prefix_of(holding),
    ensures
        score(limit, input, prefixed)->0 < score(limit, input, holding)->0,
{
}

/// A name is suggested exactly where one is close: it begins with what was typed, holds
/// it, or is near enough. What is suggested is one of the names, and none is closer.
pub proof fn law_closest_name_is_suggested(
    input: Seq<char>,
    candidates: Seq<Seq<char>>,
    k: int,
)
    ensures
        candidates.len() == 0 ==> suggested(input, candidates) is None,
        suggested(input, candidates) matches Some(name) ==> candidates.contains(name),
        0 <= k < candidates.len() && unicode_lowercase(input).is_prefix_of(
            unicode_lowercase(candidates[k]),
        ) && unicode_lowercase(input) != unicode_lowercase(candidates[k]) ==> suggested(
            input,
            candidates,
        ) is Some,
        0 <= k < candidates.len() && distance(
            unicode_lowercase(input),
            unicode_lowercase(candidates[k]),
        ) <= 2 ==> suggested(input, candidates) is Some,
{
    let limit = threshold(encode_utf8(input).len() as usize as nat);
    let lower = unicode_lowercase(input);
    let all = all_lowercase(candidates);
    if 0 <= k < candidates.len() {
        assert(all[k] == unicode_lowercase(candidates[k]));
        assert(limit >= 2);
        if distance(lower, all[k]) <= 2 || (lower.is_prefix_of(all[k]) && lower != all[k]) {
            assert(score(limit, lower, all[k]) is Some);
        }
    }
    if !none_matches(limit, lower, all) {
        let j = choose|j: int|
            0 <= j < all.len() && !((#[trigger] score(limit, lower, all[j])) is None);
        lemma_best_exists(limit, lower, all, all.len());
        let i = choose|i: int| best_at(limit, lower, all, i);
        assert(candidates[i] == suggested(input, candidates)->0);
    }
}

/// Where one of the first names matches, some name of them matches best.
proof fn lemma_best_exists(limit: nat, input: Seq<char>, all: Seq<Seq<char>>, n: nat)
    requires
        n <= all.len(),
        exists|j: int| 0 <= j < n && (#[trigger] score(limit, input, all[j])) is Some,
    ensures
        exists|i: int| best_at(limit, input, all.take(n as int), i),
        n == all.len() ==> exists|i: int| best_at(limit, input, all, i),
    decreases n,
{
    let now = all.take(n as int);
    assert(n == all.len() ==> now =~= all);
    let last = n - 1;
    let fewer = all.take(last);
    if exists|j: int| 0 <= j < last && (#[trigger] score(limit, input, all[j])) is Some {
        lemma_best_exists(limit, input, all, last as nat);
        let i = choose|i: int| best_at(limit, input, fewer, i);
        assert(forall|j: int| 0 <= j < last ==> now[j] == fewer[j]);
        assert(now[last] == all[last]);
        let best = score(limit, input, now[i])->0;
        if score(limit, input, now[last]) is Some && score(limit, input, now[last])->0 < best {
            assert forall|j: int|
                0 <= j < now.len() && (#[trigger] score(limit, input, now[j])) is Some implies score(
                limit,
                input,
                now[last],
            )->0 <= score(limit, input, now[j])->0 by {
                if j < last {
                    assert(score(limit, input, fewer[j]) is Some);
                }
            }
            assert forall|j: int|
                0 <= j < last && (#[trigger] score(limit, input, now[j])) is Some implies score(
                limit,
                input,
                now[last],
            )->0 < score(limit, input, now[j])->0 by {
                assert(score(limit, input, fewer[j]) is Some);
            }
            assert(best_at(limit, input, now, last));
        } else {
            assert forall|j: int|
                0 <= j < now.len() && (#[trigger] score(limit, input, now[j])) is Some implies score(
                limit,
                input,
                now[i],
            )->0 <= score(limit, input, now[j])->0 by {
                if j < last {
                    assert(score(limit, input, fewer[j]) is Some);
                }
            }
            assert forall|j: int|
                0 <= j < i && (#[trigger] score(limit, input, now[j])) is Some implies score(
                limit,
                input,
                now[i],
            )->0 < score(limit, input, now[j])->0 by {
                assert(score(limit, input, fewer[j]) is Some);
            }
            assert(best_at(limit, input, now, i));
        }
    } else {
        assert(score(limit, input, all[last]) is Some);
        assert(now[last] == all[last]);
        assert forall|j: int| 0 <= j < last implies score(limit, input, #[trigger] now[j]) is None by {
            assert(now[j] == all[j]);
        }
        assert(best_at(limit, input, now, last));
    }
}

} // verus!
