//! Paths, step by step.

use vstd::prelude::*;
use crate::text::{chars_of, join, join_texts, same, split, split_at_char, texts};

verus! {

/// Whether a path begins at the root.
pub open spec fn from_root(path: Seq<char>) -> bool {
    path.len() > 0 && path[0] == '/'
}

/// The steps among the pieces of a path: neither empty pieces nor dots count, but
/// for a dot at the very start.
pub open spec fn steps_among(pieces: Seq<Seq<char>>) -> Seq<Seq<char>>
    decreases pieces.len(),
{
    if pieces.len() == 0 {
        Seq::empty()
    } else {
        let before = steps_among(pieces.drop_last());
        if pieces.last().len() == 0 || (pieces.last() == "."@ && pieces.len() > 1) {
            before
        } else {
            before.push(pieces.last())
        }
    }
}

/// The steps of a path.
pub open spec fn steps(path: Seq<char>) -> Seq<Seq<char>> {
    steps_among(split(path, '/'))
}

/// The steps that are left where each step upwards undoes the one before it.
pub open spec fn settled(all: Seq<Seq<char>>) -> Seq<Seq<char>>
    decreases all.len(),
{
    if all.len() == 0 {
        Seq::empty()
    } else {
        let before = settled(all.drop_last());
        if all.last() == "."@ {
            before
        } else if all.last() == ".."@ {
            if before.len() == 0 {
                before
            } else {
                before.drop_last()
            }
        } else {
            before.push(all.last())
        }
    }
}

/// A path without dots, empty steps and steps upwards.
pub open spec fn normalized(path: Seq<char>) -> Seq<char> {
    let rest = join(settled(steps(path)), "/"@);
    if from_root(path) {
        "/"@ + rest
    } else {
        rest
    }
}

/// Whether the steps of a path begin with those of another.
pub open spec fn within(path: Seq<char>, base: Seq<char>) -> bool {
    if from_root(base) == from_root(path) {
        steps(base).is_prefix_of(steps(path))
    } else {
        !from_root(base) && steps(base).len() == 0
    }
}

fn is_from_root(path: &str) -> (r: bool)
    ensures
        r == from_root(path@),
{
    let x = chars_of(path);
    x.len() > 0 && x[0] == '/'
}

fn path_steps(path: &str) -> (r: Vec<String>)
    ensures
        texts(r@) == steps(path@),
{
    let pieces = split_at_char(path, '/');
    let ghost all = texts(pieces@);
    let mut out: Vec<String> = Vec::new();
    let mut i: usize = 0;
    assert(texts(out@) =~= steps_among(all.take(0)));
    while i < pieces.len()
        invariant
            i <= pieces@.len(),
            all == texts(pieces@),
            texts(out@) == steps_among(all.take(i as int)),
        decreases pieces.len() - i,
    {
        assert(all.take(i + 1).drop_last() =~= all.take(i as int));
        assert(all.take(i + 1).last() == pieces@[i as int]@);
        let ghost was = texts(out@);
        if chars_of(pieces[i].as_str()).len() != 0 && !(same(pieces[i].as_str(), ".") && i > 0) {
            out.push(pieces[i].clone());
            assert(texts(out@) =~= was.push(all[i as int]));
        }
        i += 1;
    }
    assert(all.take(all.len() as int) =~= all);
    out
}

fn settle_steps(all: &Vec<String>) -> (r: Vec<String>)
    ensures
        texts(r@) == settled(texts(all@)),
{
    let ghost want = texts(all@);
    let mut out: Vec<String> = Vec::new();
    let mut i: usize = 0;
    assert(texts(out@) =~= settled(want.take(0)));
    while i < all.len()
        invariant
            i <= all@.len(),
            want == texts(all@),
            texts(out@) == settled(want.take(i as int)),
        decreases all.len() - i,
    {
        assert(want.take(i + 1).drop_last() =~= want.take(i as int));
        assert(want.take(i + 1).last() == all@[i as int]@);
        let ghost was = texts(out@);
        if same(all[i].as_str(), ".") {
        } else if same(all[i].as_str(), "..") {
            if out.len() > 0 {
                let _ = out.pop();
                assert(texts(out@) =~= was.drop_last());
            }
        } else {
            out.push(all[i].clone());
            assert(texts(out@) =~= was.push(want[i as int]));
        }
        i += 1;
    }
    assert(want.take(want.len() as int) =~= want);
    out
}

/// Takes dots, empty steps and steps upwards out of a path.
pub fn normalize_absolute(path: &str) -> (r: String)
    ensures
        r@ == normalized(path@),
{
    let rest = join_texts(&settle_steps(&path_steps(path)), "/");
    if is_from_root(path) {
        crate::text::cat("/", rest.as_str())
    } else {
        rest
    }
}

/// Whether the steps of a path begin with those of another.
pub fn is_within(path: &str, base: &str) -> (r: bool)
    ensures
        r == within(path@, base@),
{
    let a = path_steps(path);
    let b = path_steps(base);
    let ghost x = steps(path@);
    let ghost y = steps(base@);
    if is_from_root(base) != is_from_root(path) {
        return !is_from_root(base) && b.len() == 0;
    }
    if b.len() > a.len() {
        return false;
    }
    let mut i: usize = 0;
    while i < b.len()
        invariant
            i <= b@.len() <= a@.len(),
            x == texts(a@),
            y == texts(b@),
            x == steps(path@),
            y == steps(base@),
            from_root(base@) == from_root(path@),
            forall|k: int| 0 <= k < i ==> x[k] == #[trigger] y[k],
        decreases b.len() - i,
    {
        assert(x[i as int] == a@[i as int]@ && y[i as int] == b@[i as int]@);
        if !same(a[i].as_str(), b[i].as_str()) {
            assert(x.subrange(0, y.len() as int)[i as int] == x[i as int]);
            return false;
        }
        i += 1;
    }
    assert(y =~= x.subrange(0, y.len() as int));
    true
}

/// Whether two paths have the same steps.
pub open spec fn one_path(a: Seq<char>, b: Seq<char>) -> bool {
    from_root(a) == from_root(b) && steps(a) == steps(b)
}

/// Whether two paths have the same steps.
pub fn is_one_path(a: &str, b: &str) -> (r: bool)
    ensures
        r == one_path(a@, b@),
{
    let x = path_steps(a);
    let y = path_steps(b);
    let ghost p = steps(a@);
    let ghost q = steps(b@);
    if is_from_root(a) != is_from_root(b) || x.len() != y.len() {
        assert(p.len() == x@.len() && q.len() == y@.len());
        return false;
    }
    let mut i: usize = 0;
    while i < x.len()
        invariant
            i <= x@.len(),
            x@.len() == y@.len(),
            p == texts(x@),
            q == texts(y@),
            p == steps(a@),
            q == steps(b@),
            from_root(a@) == from_root(b@),
            forall|k: int| 0 <= k < i ==> p[k] == #[trigger] q[k],
        decreases x.len() - i,
    {
        assert(p[i as int] == x@[i as int]@ && q[i as int] == y@[i as int]@);
        if !same(x[i].as_str(), y[i].as_str()) {
            return false;
        }
        i += 1;
    }
    assert(p =~= q);
    true
}

/// The components of a path: its steps, behind the root where it begins there.
pub open spec fn components(path: Seq<char>) -> Seq<Seq<char>> {
    if from_root(path) {
        seq!["/"@] + steps(path)
    } else {
        steps(path)
    }
}

/// Gives the components of a path.
pub fn path_components(path: &str) -> (r: Vec<String>)
    ensures
        texts(r@) == components(path@),
{
    let mut all = path_steps(path);
    if is_from_root(path) {
        let ghost was = texts(all@);
        all.insert(0, "/".to_string());
        assert(texts(all@) =~= seq!["/"@] + was);
    }
    all
}

/// A path that has been settled leads upwards nowhere.
proof fn lemma_settled(all: Seq<Seq<char>>, i: int)
    requires
        0 <= i < settled(all).len(),
    ensures
        settled(all)[i] != ".."@,
        settled(all)[i] != "."@,
    decreases all.len(),
{
    if all.len() > 0 {
        let before = settled(all.drop_last());
        if i < before.len() {
            lemma_settled(all.drop_last(), i);
        }
    }
}

/// No step of a normal path leads upwards or stays where it is.
pub proof fn law_normal_paths_lead_down(path: Seq<char>, i: int)
    requires
        0 <= i < settled(steps(path)).len(),
    ensures
        settled(steps(path))[i] != ".."@,
        settled(steps(path))[i] != "."@,
{
    lemma_settled(steps(path), i);
}

/// Every path is within itself.
pub proof fn law_paths_are_within_themselves(path: Seq<char>)
    ensures
        within(path, path),
{
    assert(steps(path) =~= steps(path).subrange(0, steps(path).len() as int));
}

/// A step up takes back the step before it, and a step to the same place is none.
pub proof fn law_steps_up_take_back(all: Seq<Seq<char>>, step: Seq<char>)
    requires
        step != "."@,
        step != ".."@,
    ensures
        settled(all.push(step).push(".."@)) == settled(all),
        settled(all.push("."@)) == settled(all),
        settled(all.push(step)) == settled(all).push(step),
        settled(seq![".."@]).len() == 0,
{
    reveal_strlit(".");
    reveal_strlit("..");
    assert("."@.len() != ".."@.len());
    let longer = all.push(step);
    assert(longer.push(".."@).drop_last() =~= longer);
    assert(longer.drop_last() =~= all);
    assert(all.push("."@).drop_last() =~= all);
    assert(settled(longer).drop_last() =~= settled(all));
    assert(seq![".."@].drop_last() =~= Seq::empty());
    reveal_with_fuel(settled, 2);
}

/// A path inside another that is inside a third is inside that too, and only steps that
/// lead down stand behind the outer path.
pub proof fn law_inside_of_inside_is_inside(a: Seq<char>, b: Seq<char>, c: Seq<char>)
    requires
        from_root(a) == from_root(b),
        from_root(b) == from_root(c),
    ensures
        within(a, b) && within(b, c) ==> within(a, c),
        within(a, b) ==> steps(a).len() >= steps(b).len() && steps(a).take(steps(b).len() as int)
            == steps(b),
        steps(a).len() < steps(b).len() ==> !within(a, b),
{
    if within(a, b) && within(b, c) {
        let n = steps(c).len() as int;
        assert(steps(a).subrange(0, n) =~= steps(b).subrange(0, n));
    }
    if within(a, b) {
        assert(steps(a).take(steps(b).len() as int) =~= steps(a).subrange(0, steps(b).len() as int));
    }
}

/// An absolute path and a relative one are never the same, nor one inside the other,
/// unless the outer one is the empty path.
pub proof fn law_absolute_and_relative_differ(a: Seq<char>, b: Seq<char>)
    requires
        from_root(a),
        !from_root(b),
    ensures
        !one_path(a, b),
        !within(b, a),
        within(a, b) ==> steps(b).len() == 0,
{
}

/// A further step of a path is its last one; a slash at the end and a step to the same
/// place add none.
pub proof fn law_steps_follow_each_other(path: Seq<char>, step: Seq<char>)
    requires
        path.len() > 0,
        !step.contains('/'),
    ensures
        steps(path + seq!['/']) == steps(path),
        step == "."@ ==> steps(path + seq!['/'] + step) == steps(path),
        step.len() > 0 && step != "."@ ==> steps(path + seq!['/'] + step) == steps(path).push(step),
        from_root(path + seq!['/'] + step) == from_root(path),
{
    let none = Seq::<char>::empty();
    crate::text::law_pieces_are_parted(path, none, '/');
    assert(path + seq!['/'] + none =~= path + seq!['/']);
    crate::text::law_pieces_are_parted(path, step, '/');
    crate::text::law_pieces_are_parted(step, none, '/');
    crate::text::law_pieces_are_parted(none, none, '/');
    crate::text::lemma_split_pieces(path, '/');
    let pieces = split(path, '/');
    assert(!none.contains('/'));
    assert(split(path + seq!['/'], '/') =~= pieces.push(none));
    assert(split(path + seq!['/'] + step, '/') =~= pieces.push(step));
    assert(pieces.push(none).drop_last() =~= pieces);
    assert(pieces.push(step).drop_last() =~= pieces);
    assert((path + seq!['/'] + step)[0] == path[0]);
}

} // verus!
