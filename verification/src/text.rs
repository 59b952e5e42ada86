//! Text as sequences of characters: searching, splitting, joining, ordering
//! and decimal numbers.
//!
//! Every function here is stated over `Seq<char>`, the view that both `str`
//! and `String` have.

use vstd::prelude::*;

verus! {

/// `String::push` appends one character to the end of the text.
pub assume_specification[ std::string::String::push ](s: &mut std::string::String, c: char)
    ensures
        final(s)@ == old(s)@.push(c),
;

// ---------------------------------------------------------------------------
// Characters
// ---------------------------------------------------------------------------

/// Whether `c` is an ASCII digit.
pub open spec fn digit(c: char) -> bool {
    '0' <= c && c <= '9'
}

/// Whether `c` is an ASCII lowercase letter.
pub open spec fn lowercase(c: char) -> bool {
    'a' <= c && c <= 'z'
}

/// Whether `c` is an ASCII uppercase letter.
pub open spec fn uppercase(c: char) -> bool {
    'A' <= c && c <= 'Z'
}

/// Whether `c` is an ASCII letter or digit.
pub open spec fn alphanumeric(c: char) -> bool {
    digit(c) || lowercase(c) || uppercase(c)
}

/// Whether `c` has the Unicode `White_Space` property.
pub open spec fn white_space(c: char) -> bool {
    let n = c as u32;
    ||| 0x9 <= n <= 0xD
    ||| n == 0x20
    ||| n == 0x85
    ||| n == 0xA0
    ||| n == 0x1680
    ||| 0x2000 <= n <= 0x200A
    ||| n == 0x2028
    ||| n == 0x2029
    ||| n == 0x202F
    ||| n == 0x205F
    ||| n == 0x3000
}

/// `c` with an ASCII uppercase letter turned into its lowercase form.
pub open spec fn lower(c: char) -> char {
    if uppercase(c) {
        ((c as u8) + 32) as char
    } else {
        c
    }
}

/// Tests for an ASCII digit.
pub fn is_digit(c: char) -> (r: bool)
    ensures
        r == digit(c),
{
    c >= '0' && c <= '9'
}

/// Tests for an ASCII lowercase letter.
pub fn is_lowercase(c: char) -> (r: bool)
    ensures
        r == lowercase(c),
{
    c >= 'a' && c <= 'z'
}

/// Tests for an ASCII letter or digit.
pub fn is_alphanumeric(c: char) -> (r: bool)
    ensures
        r == alphanumeric(c),
{
    (c >= '0' && c <= '9') || (c >= 'a' && c <= 'z') || (c >= 'A' && c <= 'Z')
}

/// Tests for the Unicode `White_Space` property.
pub fn is_white_space(c: char) -> (r: bool)
    ensures
        r == white_space(c),
{
    let n: u32 = c as u32;
    (n >= 0x9 && n <= 0xD) || n == 0x20 || n == 0x85 || n == 0xA0 || n == 0x1680 || (n >= 0x2000
        && n <= 0x200A) || n == 0x2028 || n == 0x2029 || n == 0x202F || n == 0x205F || n == 0x3000
}

/// Turns an ASCII uppercase letter into its lowercase form.
pub fn to_lower(c: char) -> (r: char)
    ensures
        r == lower(c),
{
    if c >= 'A' && c <= 'Z' {
        ((c as u8) + 32) as char
    } else {
        c
    }
}

// ---------------------------------------------------------------------------
// Conversions
// ---------------------------------------------------------------------------

/// The texts of a sequence of strings.
pub open spec fn texts(v: Seq<String>) -> Seq<Seq<char>> {
    v.map_values(|s: String| s@)
}

/// The text of an optional string.
pub open spec fn opt_text(o: Option<String>) -> Option<Seq<char>> {
    match o {
        Some(s) => Some(s@),
        None => None,
    }
}

/// The text of an optional slice.
pub open spec fn opt_str(o: Option<&str>) -> Option<Seq<char>> {
    match o {
        Some(s) => Some(s@),
        None => None,
    }
}

/// The characters of `s` as a vector.
pub fn chars_of(s: &str) -> (v: Vec<char>)
    ensures
        v@ == s@,
{
    let mut v: Vec<char> = Vec::new();
    for c in it: s.chars()
        invariant
            v@ == s@.take(it.index() as int),
            it.seq() == s@,
    {
        assert(s@.take(it.index() as int + 1) == s@.take(it.index() as int).push(c));
        v.push(c);
    }
    assert(s@.take(s@.len() as int) == s@);
    v
}

/// The text made of `v[from..to]`.
pub fn text_of(v: &Vec<char>, from: usize, to: usize) -> (s: String)
    requires
        from <= to <= v@.len(),
    ensures
        s@ == v@.subrange(from as int, to as int),
{
    let mut s = String::new();
    let mut i: usize = from;
    while i < to
        invariant
            from <= i <= to <= v@.len(),
            s@ == v@.subrange(from as int, i as int),
        decreases to - i,
    {
        assert(v@.subrange(from as int, i + 1) == v@.subrange(from as int, i as int).push(
            v@[i as int],
        ));
        s.push(v[i]);
        i += 1;
    }
    s
}

/// Whether two texts are equal.
pub fn same(a: &str, b: &str) -> (r: bool)
    ensures
        r == (a@ == b@),
{
    let x = chars_of(a);
    let y = chars_of(b);
    if x.len() != y.len() {
        return false;
    }
    let mut i: usize = 0;
    while i < x.len()
        invariant
            i <= x.len(),
            x@.len() == y@.len(),
            x@ == a@,
            y@ == b@,
            forall|k: int| 0 <= k < i ==> x@[k] == y@[k],
        decreases x.len() - i,
    {
        if x[i] != y[i] {
            return false;
        }
        i += 1;
    }
    assert(a@ =~= b@);
    true
}

/// Copies an optional string.
pub fn copy_opt(o: &Option<String>) -> (r: Option<String>)
    ensures
        r == *o,
{
    o.clone()
}

// ---------------------------------------------------------------------------
// Prefixes and searching
// ---------------------------------------------------------------------------

/// Whether `p` occurs in `s` at position `i`.
pub open spec fn occurs_at(s: Seq<char>, p: Seq<char>, i: int) -> bool {
    0 <= i && i + p.len() <= s.len() && s.subrange(i, i + p.len()) == p
}

/// Whether `p` occurs anywhere in `s`.
pub open spec fn occurs(s: Seq<char>, p: Seq<char>) -> bool {
    exists|i: int| occurs_at(s, p, i)
}

/// The first position at or after `from` at which `p` occurs in `s`.
pub open spec fn find_from(s: Seq<char>, p: Seq<char>, from: nat) -> Option<nat>
    decreases s.len() + 1 - from,
{
    if from + p.len() > s.len() {
        None
    } else if occurs_at(s, p, from as int) {
        Some(from)
    } else {
        find_from(s, p, from + 1)
    }
}

/// The first position at which `p` occurs in `s`.
pub open spec fn find(s: Seq<char>, p: Seq<char>) -> Option<nat> {
    find_from(s, p, 0)
}

/// [`find_from`] gives the least position that is not before `from`, and
/// nothing exactly when there is none.
pub proof fn lemma_find_from(s: Seq<char>, p: Seq<char>, from: nat)
    ensures
        find_from(s, p, from) matches Some(i) ==> from <= i && occurs_at(s, p, i as int) && (
        forall|j: int| from <= j < i ==> !#[trigger] occurs_at(s, p, j)),
        find_from(s, p, from) is None ==> forall|j: int|
            from <= j ==> !#[trigger] occurs_at(s, p, j),
    decreases s.len() + 1 - from,
{
    if from + p.len() > s.len() {
    } else if occurs_at(s, p, from as int) {
    } else {
        lemma_find_from(s, p, from + 1);
    }
}

/// Whether `p` is at the start of `s`.
pub fn starts_with(s: &str, p: &str) -> (r: bool)
    ensures
        r == p@.is_prefix_of(s@),
{
    let x = chars_of(s);
    let y = chars_of(p);
    matches_at(&x, &y, 0)
}

/// Whether `p` is at the end of `s`.
pub fn ends_with(s: &str, p: &str) -> (r: bool)
    ensures
        r == p@.is_suffix_of(s@),
{
    let x = chars_of(s);
    let y = chars_of(p);
    if y.len() > x.len() {
        return false;
    }
    matches_at(&x, &y, x.len() - y.len())
}

/// Whether `p` occurs in `s` at position `at`.
pub fn matches_at(s: &Vec<char>, p: &Vec<char>, at: usize) -> (r: bool)
    requires
        at <= s@.len(),
    ensures
        r == occurs_at(s@, p@, at as int),
{
    if p.len() > s.len() - at {
        return false;
    }
    let mut i: usize = 0;
    while i < p.len()
        invariant
            i <= p@.len(),
            at + p.len() <= s.len(),
            forall|k: int| 0 <= k < i ==> s@[at + k] == p@[k],
        decreases p.len() - i,
    {
        if s[at + i] != p[i] {
            assert(s@.subrange(at as int, at + p@.len())[i as int] != p@[i as int]);
            return false;
        }
        i += 1;
    }
    assert(s@.subrange(at as int, at + p@.len()) =~= p@);
    true
}

/// The rest of `s` behind the prefix `p`, where `p` is one.
pub fn strip_prefix(s: &str, p: &str) -> (r: Option<String>)
    ensures
        r is Some <==> p@.is_prefix_of(s@),
        r matches Some(t) ==> t@ == s@.skip(p@.len() as int),
{
    let x = chars_of(s);
    let y = chars_of(p);
    if matches_at(&x, &y, 0) {
        Some(text_of(&x, y.len(), x.len()))
    } else {
        None
    }
}

/// Finds the first occurrence of `p` in `s` at or after `from`.
pub fn find_text(s: &Vec<char>, p: &Vec<char>, from: usize) -> (r: Option<usize>)
    requires
        from <= s@.len(),
    ensures
        match r {
            Some(i) => find_from(s@, p@, from as nat) == Some(i as nat),
            None => find_from(s@, p@, from as nat) is None,
        },
{
    let mut i: usize = from;
    while i <= s.len() && p.len() <= s.len() - i
        invariant
            from <= i <= s@.len() + 1,
            find_from(s@, p@, from as nat) == find_from(s@, p@, i as nat),
        decreases s.len() + 1 - i,
    {
        if matches_at(s, p, i) {
            return Some(i);
        }
        if i == s.len() {
            assert(s@.subrange(i as int, i + p@.len()) =~= p@);
            return None;
        }
        i += 1;
    }
    None
}

/// Whether `p` occurs anywhere in `s`.
pub fn contains(s: &str, p: &str) -> (r: bool)
    ensures
        r == occurs(s@, p@),
{
    let x = chars_of(s);
    let y = chars_of(p);
    proof {
        lemma_find_from(s@, p@, 0);
    }
    match find_text(&x, &y, 0) {
        Some(_) => true,
        None => {
            assert(forall|i: int| occurs_at(s@, p@, i) ==> 0 <= i);
            false
        },
    }
}

/// The first position at or after `from` at which `c` stands in `s`.
pub open spec fn find_char_from(s: Seq<char>, c: char, from: nat) -> Option<nat>
    decreases s.len() - from,
{
    if from >= s.len() {
        None
    } else if s[from as int] == c {
        Some(from)
    } else {
        find_char_from(s, c, from + 1)
    }
}

/// [`find_char_from`] gives the least position that is not before `from`, and
/// nothing exactly when there is none.
pub proof fn lemma_find_char_from(s: Seq<char>, c: char, from: nat)
    ensures
        find_char_from(s, c, from) matches Some(i) ==> from <= i < s.len() && s[i as int] == c && (
        forall|j: int| from <= j < i ==> s[j] != c),
        find_char_from(s, c, from) is None ==> forall|j: int| from <= j < s.len() ==> s[j] != c,
    decreases s.len() - from,
{
    if from < s.len() && s[from as int] != c {
        lemma_find_char_from(s, c, from + 1);
    }
}

/// Finds the first `c` in `s` at or after `from`.
pub fn find_char(s: &Vec<char>, c: char, from: usize) -> (r: Option<usize>)
    requires
        from <= s@.len(),
    ensures
        match r {
            Some(i) => find_char_from(s@, c, from as nat) == Some(i as nat),
            None => find_char_from(s@, c, from as nat) is None,
        },
{
    let mut i: usize = from;
    while i < s.len()
        invariant
            from <= i <= s@.len(),
            find_char_from(s@, c, from as nat) == find_char_from(s@, c, i as nat),
        decreases s.len() - i,
    {
        if s[i] == c {
            return Some(i);
        }
        i += 1;
    }
    None
}

/// Whether `c` stands anywhere in `s`.
pub fn contains_char(s: &str, c: char) -> (r: bool)
    ensures
        r == s@.contains(c),
{
    let x = chars_of(s);
    proof {
        lemma_find_char_from(s@, c, 0);
    }
    match find_char(&x, c, 0) {
        Some(_) => true,
        None => false,
    }
}

/// Whether any character of `s` is white space.
pub fn has_white_space(s: &str) -> (r: bool)
    ensures
        r == exists|i: int| 0 <= i < s@.len() && white_space(#[trigger] s@[i]),
{
    let x = chars_of(s);
    let mut i: usize = 0;
    while i < x.len()
        invariant
            i <= x@.len(),
            x@ == s@,
            forall|k: int| 0 <= k < i ==> !white_space(#[trigger] s@[k]),
        decreases x.len() - i,
    {
        if is_white_space(x[i]) {
            assert(white_space(s@[i as int]));
            return true;
        }
        i += 1;
    }
    false
}

// ---------------------------------------------------------------------------
// Splitting and joining
// ---------------------------------------------------------------------------

/// The pieces of `s` between the characters `c`: one more than there are `c`s.
pub open spec fn split(s: Seq<char>, c: char) -> Seq<Seq<char>>
    decreases s.len(),
{
    if s.len() == 0 {
        seq![Seq::empty()]
    } else {
        let before = split(s.drop_last(), c);
        if s.last() == c {
            before.push(Seq::empty())
        } else {
            before.drop_last().push(before.last().push(s.last()))
        }
    }
}

/// The parts that are not empty, in order.
pub open spec fn non_empty(parts: Seq<Seq<char>>) -> Seq<Seq<char>>
    decreases parts.len(),
{
    if parts.len() == 0 {
        Seq::empty()
    } else if parts.last().len() > 0 {
        non_empty(parts.drop_last()).push(parts.last())
    } else {
        non_empty(parts.drop_last())
    }
}

/// The words of `s`: its longest pieces without white space.
pub open spec fn words(s: Seq<char>) -> Seq<Seq<char>>
    decreases s.len(),
{
    if s.len() == 0 {
        Seq::empty()
    } else {
        let before = words(s.drop_last());
        if white_space(s.last()) {
            before
        } else if s.len() >= 2 && !white_space(s[s.len() - 2]) {
            before.drop_last().push(before.last().push(s.last()))
        } else {
            before.push(seq![s.last()])
        }
    }
}

/// The texts `parts` in order, with `sep` between two neighbours.
pub open spec fn join(parts: Seq<Seq<char>>, sep: Seq<char>) -> Seq<char>
    decreases parts.len(),
{
    if parts.len() == 0 {
        Seq::empty()
    } else if parts.len() == 1 {
        parts[0]
    } else {
        join(parts.drop_last(), sep) + sep + parts.last()
    }
}

/// Splitting gives at least one piece, and no piece holds the separator.
pub proof fn lemma_split_pieces(s: Seq<char>, c: char)
    ensures
        split(s, c).len() >= 1,
        forall|i: int| 0 <= i < split(s, c).len() ==> !(#[trigger] split(s, c)[i]).contains(c),
    decreases s.len(),
{
    if s.len() > 0 {
        lemma_split_pieces(s.drop_last(), c);
        let before = split(s.drop_last(), c);
        if s.last() != c {
            assert(!before.last().contains(c));
            assert forall|i: int| 0 <= i < before.last().push(s.last()).len() implies before.last().push(
                s.last(),
            )[i] != c by {
                if i < before.last().len() {
                    assert(before.last()[i] != c);
                }
            }
        }
    }
}

/// Joining the pieces with the separator that they were split at gives the
/// text back.
pub proof fn lemma_join_split(s: Seq<char>, c: char)
    ensures
        join(split(s, c), seq![c]) == s,
    decreases s.len(),
{
    if s.len() > 0 {
        lemma_join_split(s.drop_last(), c);
        lemma_split_pieces(s.drop_last(), c);
        let before = split(s.drop_last(), c);
        if s.last() == c {
            assert(split(s, c).drop_last() =~= before);
            assert(join(split(s, c), seq![c]) =~= s);
        } else {
            assert(split(s, c).drop_last() =~= before.drop_last());
            assert(split(s, c).last() == before.last().push(s.last()));
            if before.len() == 1 {
                assert(before.last() == s.drop_last());
            }
            assert(join(split(s, c), seq![c]) =~= s.drop_last().push(s.last()));
            assert(s.drop_last().push(s.last()) =~= s);
        }
    } else {
        assert(join(split(s, c), seq![c]) =~= s);
    }
}

/// Splits `s` at every `c`.
pub fn split_at_char(s: &str, c: char) -> (r: Vec<String>)
    ensures
        texts(r@) == split(s@, c),
        r@.len() >= 1,
{
    let x = chars_of(s);
    let mut parts: Vec<String> = Vec::new();
    let mut current = String::new();
    let mut i: usize = 0;
    assert(texts(parts@).push(current@) =~= split(x@.take(0), c));
    while i < x.len()
        invariant
            i <= x@.len(),
            x@ == s@,
            texts(parts@).push(current@) == split(x@.take(i as int), c),
        decreases x.len() - i,
    {
        let ghost before = texts(parts@).push(current@);
        assert(x@.take(i + 1).drop_last() =~= x@.take(i as int));
        assert(before.drop_last() =~= texts(parts@));
        if x[i] == c {
            parts.push(current);
            assert(texts(parts@) =~= before);
            current = String::new();
        } else {
            current.push(x[i]);
        }
        i += 1;
    }
    assert(x@.take(x@.len() as int) =~= x@);
    let ghost before = texts(parts@).push(current@);
    parts.push(current);
    assert(texts(parts@) =~= before);
    parts
}

/// Splits a text into its words.
pub fn split_words(s: &str) -> (r: Vec<String>)
    ensures
        texts(r@) == words(s@),
{
    let x = chars_of(s);
    let mut out: Vec<String> = Vec::new();
    let mut word = String::new();
    let mut inside: bool = false;
    let ghost mut done: Seq<Seq<char>> = Seq::empty();
    let mut i: usize = 0;
    assert(texts(out@) =~= words(x@.take(0)));
    while i < x.len()
        invariant
            i <= x@.len(),
            texts(out@) == done,
            inside == (i > 0 && !white_space(x@[i - 1])),
            words(x@.take(i as int)) == (if inside {
                done.push(word@)
            } else {
                done
            }),
            !inside ==> word@ == Seq::<char>::empty(),
        decreases x.len() - i,
    {
        let ghost now = x@.take(i + 1);
        assert(now.drop_last() =~= x@.take(i as int));
        assert(now.last() == x@[i as int]);
        if i > 0 {
            assert(now[now.len() - 2] == x@[i - 1]);
        }
        if is_white_space(x[i]) {
            if inside {
                let ghost last = word@;
                out.push(word);
                assert(texts(out@) =~= done.push(last));
                proof {
                    done = texts(out@);
                }
                word = String::new();
                assert(word@ =~= Seq::<char>::empty());
                inside = false;
            }
        } else {
            let ghost was = word@;
            word.push(x[i]);
            if inside {
                assert(done.push(was).drop_last().push(was.push(x@[i as int])) =~= done.push(
                    was.push(x@[i as int]),
                ));
            } else {
                assert(word@ =~= seq![x@[i as int]]);
            }
            inside = true;
        }
        i += 1;
    }
    assert(x@.take(x@.len() as int) =~= x@);
    if inside {
        let ghost last = word@;
        out.push(word);
        assert(texts(out@) =~= done.push(last));
    }
    out
}

/// Joins texts with a separator.
pub fn join_texts(parts: &Vec<String>, sep: &str) -> (r: String)
    ensures
        r@ == join(texts(parts@), sep@),
{
    let mut out = String::new();
    let mut i: usize = 0;
    while i < parts.len()
        invariant
            i <= parts@.len(),
            out@ == join(texts(parts@.take(i as int)), sep@),
        decreases parts.len() - i,
    {
        let ghost done = texts(parts@.take(i as int));
        let ghost next = texts(parts@.take(i + 1));
        assert(next.drop_last() =~= done);
        assert(next.last() == parts@[i as int]@);
        if i > 0 {
            out.append(sep);
        } else {
            assert(next =~= seq![parts@[0]@]);
        }
        let ghost mid = out@;
        out.append(parts[i].as_str());
        assert(out@ =~= mid + parts@[i as int]@);
        assert(out@ =~= join(next, sep@));
        i += 1;
    }
    assert(parts@.take(parts@.len() as int) =~= parts@);
    out
}

/// `s` with every occurrence of `p`, found from the left and without overlap,
/// put as `by`.
pub open spec fn replaced(s: Seq<char>, p: Seq<char>, by: Seq<char>) -> Seq<char>
    decreases s.len(),
{
    match find(s, p) {
        Some(i) => {
            if p.len() > 0 && i + p.len() <= s.len() {
                s.take(i as int) + by + replaced(s.skip((i + p.len()) as int), p, by)
            } else {
                s
            }
        },
        None => s,
    }
}

/// Replaces every occurrence of `p` in `s`.
pub fn replace(s: &str, p: &str, by: &str) -> (r: String)
    requires
        p@.len() > 0,
    ensures
        r@ == replaced(s@, p@, by@),
{
    let x = chars_of(s);
    let y = chars_of(p);
    let mut out = String::new();
    let mut at: usize = 0;
    assert(x@.skip(0) =~= x@);
    loop
        invariant_except_break
            out@ + replaced(x@.skip(at as int), p@, by@) == replaced(s@, p@, by@),
        invariant
            at <= x@.len(),
            x@ == s@,
            y@ == p@,
            p@.len() > 0,
        ensures
            out@ == replaced(s@, p@, by@),
        decreases x.len() - at,
    {
        let ghost rest = x@.skip(at as int);
        proof {
            lemma_find_skip(x@, p@, at as nat, 0);
            lemma_find_from(x@, p@, at as nat);
        }
        match find_text(&x, &y, at) {
            Some(i) => {
                let piece = text_of(&x, at, i);
                let ghost before = out@;
                out.append(piece.as_str());
                out.append(by);
                assert(piece@ =~= rest.take(i - at));
                assert(rest.skip(i - at + p@.len()) =~= x@.skip(i + p@.len()));
                assert(out@ + replaced(x@.skip(i + p@.len()), p@, by@) =~= before + (rest.take(i - at)
                    + by@ + replaced(rest.skip(i - at + p@.len()), p@, by@)));
                at = i + y.len();
            },
            None => {
                let piece = text_of(&x, at, x.len());
                assert(piece@ =~= rest);
                let ghost before = out@;
                out.append(piece.as_str());
                assert(out@ =~= before + rest);
                break ;
            },
        }
    }
    out
}

/// Searching in the rest of a text is searching on from there.
proof fn lemma_find_skip(s: Seq<char>, p: Seq<char>, at: nat, from: nat)
    requires
        at <= s.len(),
    ensures
        match find_from(s.skip(at as int), p, from) {
            Some(i) => find_from(s, p, at + from) == Some(at + i),
            None => find_from(s, p, at + from) is None,
        },
    decreases s.len() + 1 - from,
{
    let t = s.skip(at as int);
    if from + p.len() <= t.len() {
        assert(t.subrange(from as int, (from + p.len()) as int) =~= s.subrange(
            (at + from) as int,
            (at + from + p.len()) as int,
        ));
        if !occurs_at(t, p, from as int) {
            lemma_find_skip(s, p, at, from + 1);
        }
    }
}

// ---------------------------------------------------------------------------
// Trimming and letter case
// ---------------------------------------------------------------------------

/// `s` without the white space at its start.
pub open spec fn trim_start(s: Seq<char>) -> Seq<char>
    decreases s.len(),
{
    if s.len() > 0 && white_space(s[0]) {
        trim_start(s.skip(1))
    } else {
        s
    }
}

/// `s` without the white space at its end.
pub open spec fn trim_end(s: Seq<char>) -> Seq<char>
    decreases s.len(),
{
    if s.len() > 0 && white_space(s.last()) {
        trim_end(s.drop_last())
    } else {
        s
    }
}

/// `s` without the characters `c` at its start.
pub open spec fn trim_start_char(s: Seq<char>, c: char) -> Seq<char>
    decreases s.len(),
{
    if s.len() > 0 && s[0] == c {
        trim_start_char(s.skip(1), c)
    } else {
        s
    }
}

/// `s` without the characters `c` at its end.
pub open spec fn trim_end_char(s: Seq<char>, c: char) -> Seq<char>
    decreases s.len(),
{
    if s.len() > 0 && s.last() == c {
        trim_end_char(s.drop_last(), c)
    } else {
        s
    }
}

/// Removes white space from both ends.
pub fn trim(s: &str) -> (r: String)
    ensures
        r@ == trim_end(trim_start(s@)),
{
    let x = chars_of(s);
    let mut from: usize = 0;
    assert(x@.skip(0) =~= x@);
    while from < x.len() && is_white_space(x[from])
        invariant
            from <= x@.len(),
            trim_start(x@.skip(from as int)) == trim_start(x@),
        decreases x.len() - from,
    {
        assert(x@.skip(from as int).skip(1) =~= x@.skip(from + 1));
        from += 1;
    }
    let ghost t = x@.skip(from as int);
    assert(trim_start(x@) == t);
    let mut to: usize = x.len();
    assert(x@.subrange(from as int, to as int) =~= t);
    while to > from && is_white_space(x[to - 1])
        invariant
            from <= to <= x@.len(),
            trim_end(x@.subrange(from as int, to as int)) == trim_end(t),
        decreases to - from,
    {
        assert(x@.subrange(from as int, to as int).drop_last() =~= x@.subrange(
            from as int,
            to - 1,
        ));
        to -= 1;
    }
    text_of(&x, from, to)
}

/// Removes the characters `c` from the start.
pub fn trim_leading(s: &str, c: char) -> (r: String)
    ensures
        r@ == trim_start_char(s@, c),
{
    let x = chars_of(s);
    let mut from: usize = 0;
    assert(x@.skip(0) =~= x@);
    while from < x.len() && x[from] == c
        invariant
            from <= x@.len(),
            trim_start_char(x@.skip(from as int), c) == trim_start_char(x@, c),
        decreases x.len() - from,
    {
        assert(x@.skip(from as int).skip(1) =~= x@.skip(from + 1));
        from += 1;
    }
    assert(x@.subrange(from as int, x@.len() as int) =~= x@.skip(from as int));
    text_of(&x, from, x.len())
}

/// Removes the characters `c` from the end.
pub fn trim_trailing(s: &str, c: char) -> (r: String)
    ensures
        r@ == trim_end_char(s@, c),
{
    let x = chars_of(s);
    let mut to: usize = x.len();
    assert(x@.take(to as int) =~= x@);
    while to > 0 && x[to - 1] == c
        invariant
            to <= x@.len(),
            trim_end_char(x@.take(to as int), c) == trim_end_char(x@, c),
        decreases to,
    {
        assert(x@.take(to as int).drop_last() =~= x@.take(to - 1));
        to -= 1;
    }
    assert(x@.subrange(0, to as int) =~= x@.take(to as int));
    text_of(&x, 0, to)
}

/// Removes the characters `c` from both ends.
pub fn trim_char(s: &str, c: char) -> (r: String)
    ensures
        r@ == trim_end_char(trim_start_char(s@, c), c),
{
    trim_trailing(trim_leading(s, c).as_str(), c)
}

/// `s` with its ASCII uppercase letters turned into lowercase ones.
pub open spec fn lowered(s: Seq<char>) -> Seq<char> {
    s.map_values(|c: char| lower(c))
}

/// Turns ASCII uppercase letters into lowercase ones.
pub fn to_ascii_lowercase(s: &str) -> (r: String)
    ensures
        r@ == lowered(s@),
{
    let x = chars_of(s);
    let mut out = String::new();
    let mut i: usize = 0;
    while i < x.len()
        invariant
            i <= x@.len(),
            x@ == s@,
            out@ == lowered(s@.take(i as int)),
        decreases x.len() - i,
    {
        assert(lowered(s@.take(i + 1)) =~= lowered(s@.take(i as int)).push(lower(s@[i as int])));
        out.push(to_lower(x[i]));
        i += 1;
    }
    assert(s@.take(s@.len() as int) =~= s@);
    out
}

/// Whether two texts are equal up to the case of ASCII letters.
pub fn same_ignoring_case(a: &str, b: &str) -> (r: bool)
    ensures
        r == (lowered(a@) == lowered(b@)),
{
    let x = to_ascii_lowercase(a);
    let y = to_ascii_lowercase(b);
    x == y
}

// ---------------------------------------------------------------------------
// Decimal numbers
// ---------------------------------------------------------------------------

/// The character of the digit `d`.
pub open spec fn digit_char(d: nat) -> char {
    (('0' as u8) + d) as char
}

/// `n` in decimal, without leading zeros.
pub open spec fn decimal(n: nat) -> Seq<char>
    decreases n,
{
    if n < 10 {
        seq![digit_char(n)]
    } else {
        decimal(n / 10).push(digit_char(n % 10))
    }
}

/// Writes a number in decimal.
pub fn decimal_text(n: u64) -> (r: String)
    ensures
        r@ == decimal(n as nat),
    decreases n,
{
    if n < 10 {
        let mut s = String::new();
        s.push((48u8 + n as u8) as char);
        assert(s@ =~= decimal(n as nat));
        s
    } else {
        let mut s = decimal_text(n / 10);
        s.push((48u8 + (n % 10) as u8) as char);
        s
    }
}

/// The number that the digits `s` stand for.
pub open spec fn digits_value(s: Seq<char>) -> nat
    decreases s.len(),
{
    if s.len() == 0 {
        0
    } else {
        10 * digits_value(s.drop_last()) + (s.last() as nat - '0' as nat) as nat
    }
}

/// Whether `s` holds digits only.
pub open spec fn all_digits(s: Seq<char>) -> bool {
    forall|i: int| 0 <= i < s.len() ==> digit(#[trigger] s[i])
}

/// The number that `s` writes: an optional plus sign, then at least one digit.
#[verifier::opaque]
pub open spec fn parsed(s: Seq<char>) -> Option<nat> {
    let d = if s.len() > 0 && s[0] == '+' {
        s.skip(1)
    } else {
        s
    };
    if d.len() > 0 && all_digits(d) {
        Some(digits_value(d))
    } else {
        None
    }
}

/// The number that `s` writes, where it is at most `max`.
pub open spec fn parsed_up_to(s: Seq<char>, max: nat) -> Option<nat> {
    match parsed(s) {
        Some(n) => if n <= max {
            Some(n)
        } else {
            None
        },
        None => None,
    }
}

/// More digits never make a smaller number.
proof fn lemma_digits_grow(s: Seq<char>, n: int)
    requires
        0 <= n <= s.len(),
        all_digits(s),
    ensures
        digits_value(s.take(n)) <= digits_value(s),
    decreases s.len() - n,
{
    if n < s.len() {
        lemma_digits_grow(s, n + 1);
        assert(s.take(n + 1).drop_last() =~= s.take(n));
    } else {
        assert(s.take(n) =~= s);
    }
}

/// Reads a number that is at most `max`.
pub fn parse_up_to(s: &str, max: u64) -> (r: Option<u64>)
    ensures
        match r {
            Some(n) => parsed_up_to(s@, max as nat) == Some(n as nat),
            None => parsed_up_to(s@, max as nat) is None,
        },
{
    reveal(parsed);
    let x = chars_of(s);
    let start: usize = if x.len() > 0 && x[0] == '+' {
        1
    } else {
        0
    };
    let ghost d = if start == 1 {
        s@.skip(1)
    } else {
        s@
    };
    assert(d == x@.skip(start as int)) by {
        assert(x@.skip(0) =~= x@);
    }
    if x.len() == start {
        return None;
    }
    let mut i: usize = start;
    let mut n: u64 = 0;
    let mut over: bool = false;
    while i < x.len()
        invariant
            start <= i <= x@.len(),
            x@ == s@,
            d == x@.skip(start as int),
            parsed(s@) == (if d.len() > 0 && all_digits(d) {
                Some(digits_value(d))
            } else {
                None
            }),
            all_digits(d.take(i - start)),
            n <= max,
            !over ==> n == digits_value(d.take(i - start)),
            over ==> digits_value(d.take(i - start)) > max,
        decreases x.len() - i,
    {
        let c = x[i];
        assert(d[i - start] == c);
        if !is_digit(c) {
            return None;
        }
        assert(d.take(i - start + 1).drop_last() =~= d.take(i - start));
        let v: u64 = (c as u8 - 48u8) as u64;
        if !over {
            if v > max || n > max / 10 || n * 10 > max - v {
                over = true;
            } else {
                n = n * 10 + v;
            }
        }
        i += 1;
    }
    assert(d.take(d.len() as int) =~= d);
    if over {
        None
    } else {
        Some(n)
    }
}

/// Reads a `usize`.
pub fn parse_usize(s: &str) -> (r: Option<usize>)
    ensures
        match r {
            Some(n) => parsed_up_to(s@, usize::MAX as nat) == Some(n as nat),
            None => parsed_up_to(s@, usize::MAX as nat) is None,
        },
{
    match parse_up_to(s, usize::MAX as u64) {
        Some(n) => Some(n as usize),
        None => None,
    }
}

// ---------------------------------------------------------------------------
// Order
// ---------------------------------------------------------------------------

/// Whether `a` comes before `b` in the order of their code points.
pub open spec fn before(a: Seq<char>, b: Seq<char>) -> bool
    decreases a.len(),
{
    if b.len() == 0 {
        false
    } else if a.len() == 0 {
        true
    } else if a[0] == b[0] {
        before(a.skip(1), b.skip(1))
    } else {
        a[0] < b[0]
    }
}

/// No text comes before itself, and of two texts at most one comes before the
/// other.
pub proof fn lemma_before_asymmetric(a: Seq<char>, b: Seq<char>)
    ensures
        before(a, b) ==> !before(b, a),
        before(a, b) ==> a != b,
    decreases a.len(),
{
    if a.len() > 0 && b.len() > 0 && a[0] == b[0] {
        lemma_before_asymmetric(a.skip(1), b.skip(1));
    }
}

/// Of two different texts one comes before the other.
pub proof fn lemma_before_total(a: Seq<char>, b: Seq<char>)
    ensures
        before(a, b) || before(b, a) || a == b,
    decreases a.len(),
{
    if a.len() > 0 && b.len() > 0 && a[0] == b[0] {
        lemma_before_total(a.skip(1), b.skip(1));
        if a.skip(1) == b.skip(1) {
            assert(a =~= seq![a[0]] + a.skip(1));
            assert(b =~= seq![b[0]] + b.skip(1));
        }
    } else if a.len() == 0 && b.len() == 0 {
        assert(a =~= b);
    }
}

/// The order is transitive.
pub proof fn lemma_before_transitive(a: Seq<char>, b: Seq<char>, c: Seq<char>)
    requires
        before(a, b),
        before(b, c),
    ensures
        before(a, c),
    decreases a.len(),
{
    if a.len() > 0 && b.len() > 0 && c.len() > 0 && a[0] == b[0] && b[0] == c[0] {
        lemma_before_transitive(a.skip(1), b.skip(1), c.skip(1));
    }
}

/// Whether `a` comes before `b`.
pub fn is_before(a: &str, b: &str) -> (r: bool)
    ensures
        r == before(a@, b@),
{
    let x = chars_of(a);
    let y = chars_of(b);
    let mut i: usize = 0;
    assert(x@.skip(0) =~= x@);
    assert(y@.skip(0) =~= y@);
    while i < x.len() && i < y.len() && x[i] == y[i]
        invariant
            i <= x@.len(),
            i <= y@.len(),
            before(x@.skip(i as int), y@.skip(i as int)) == before(x@, y@),
        decreases x.len() - i,
    {
        assert(x@.skip(i as int).skip(1) =~= x@.skip(i + 1));
        assert(y@.skip(i as int).skip(1) =~= y@.skip(i + 1));
        i += 1;
    }
    if i == y.len() {
        false
    } else if i == x.len() {
        true
    } else {
        x[i] < y[i]
    }
}

// ---------------------------------------------------------------------------
// Concatenation
// ---------------------------------------------------------------------------

/// The two texts, one behind the other.
pub fn cat(a: &str, b: &str) -> (r: String)
    ensures
        r@ == a@ + b@,
{
    let mut out = a.to_string();
    out.append(b);
    out
}

/// The three texts, one behind the other.
pub fn cat3(a: &str, b: &str, c: &str) -> (r: String)
    ensures
        r@ == a@ + b@ + c@,
{
    let mut out = a.to_string();
    out.append(b);
    out.append(c);
    out
}

/// Appends copies of the texts of `v[from..]` to `to`.
pub fn append_texts(to: &mut Vec<String>, v: &Vec<String>, from: usize)
    requires
        from <= v@.len(),
    ensures
        final(to)@ == old(to)@ + v@.skip(from as int),
{
    let ghost start = to@;
    let mut i: usize = from;
    assert(start + v@.subrange(from as int, from as int) =~= start);
    while i < v.len()
        invariant
            from <= i <= v@.len(),
            to@ == start + v@.subrange(from as int, i as int),
        decreases v.len() - i,
    {
        to.push(v[i].clone());
        assert(v@.subrange(from as int, i + 1) =~= v@.subrange(from as int, i as int).push(
            v@[i as int],
        ));
        assert(to@ =~= start + v@.subrange(from as int, i + 1));
        i += 1;
    }
    assert(v@.subrange(from as int, v@.len() as int) =~= v@.skip(from as int));
}

// ---------------------------------------------------------------------------
// Lines
// ---------------------------------------------------------------------------

/// `s` without a carriage return at its end.
pub open spec fn without_return(s: Seq<char>) -> Seq<char> {
    if s.len() > 0 && s.last() == '\r' {
        s.drop_last()
    } else {
        s
    }
}

/// The lines of `s`: what stands before each line feed, without a carriage return
/// before that, and what stands behind the last one where that is not empty.
pub open spec fn lines(s: Seq<char>) -> Seq<Seq<char>> {
    let pieces = split(s, '\n');
    let ended = pieces.drop_last().map_values(|p: Seq<char>| without_return(p));
    if pieces.last().len() == 0 {
        ended
    } else {
        ended.push(pieces.last())
    }
}

/// Removes a carriage return from the end.
fn strip_return(s: &str) -> (r: String)
    ensures
        r@ == without_return(s@),
{
    let x = chars_of(s);
    let mut end: usize = x.len();
    if end > 0 && x[end - 1] == '\r' {
        end -= 1;
    }
    assert(x@.subrange(0, end as int) =~= without_return(s@));
    text_of(&x, 0, end)
}

/// Splits a text into its lines.
pub fn split_lines(s: &str) -> (r: Vec<String>)
    ensures
        texts(r@) == lines(s@),
{
    let pieces = split_at_char(s, '\n');
    let ghost all = texts(pieces@);
    proof {
        lemma_split_pieces(s@, '\n');
    }
    let ghost ended = all.drop_last().map_values(|p: Seq<char>| without_return(p));
    let mut out: Vec<String> = Vec::new();
    let mut i: usize = 0;
    while i < pieces.len() - 1
        invariant
            i <= pieces@.len() - 1,
            pieces@.len() >= 1,
            all == texts(pieces@),
            ended == all.drop_last().map_values(|p: Seq<char>| without_return(p)),
            texts(out@) == ended.take(i as int),
        decreases pieces.len() - i,
    {
        let ghost was = texts(out@);
        out.push(strip_return(pieces[i].as_str()));
        assert(texts(out@) =~= was.push(ended[i as int]));
        assert(ended.take(i + 1) =~= ended.take(i as int).push(ended[i as int]));
        i += 1;
    }
    assert(ended.take(ended.len() as int) =~= ended);
    let last = pieces[pieces.len() - 1].clone();
    if chars_of(last.as_str()).len() > 0 {
        let ghost end = last@;
        out.push(last);
        assert(texts(out@) =~= ended.push(end));
    }
    out
}

/// The number of bytes that a character takes in UTF-8.
pub open spec fn utf8_width(c: char) -> nat {
    if (c as u32) < 0x80 {
        1
    } else if (c as u32) < 0x800 {
        2
    } else if (c as u32) < 0x1_0000 {
        3
    } else {
        4
    }
}

/// The number of bytes that a text takes in UTF-8.
pub open spec fn utf8_len(s: Seq<char>) -> nat
    decreases s.len(),
{
    if s.len() == 0 {
        0
    } else {
        utf8_len(s.drop_last()) + utf8_width(s.last())
    }
}

/// The position of the character that begins `left` bytes behind the position
/// `from`.
pub open spec fn at_byte(s: Seq<char>, from: nat, left: nat) -> Option<nat>
    decreases s.len() - from,
{
    if left == 0 {
        Some(from)
    } else if from >= s.len() || utf8_width(s[from as int]) > left {
        None
    } else {
        at_byte(s, from + 1, (left - utf8_width(s[from as int])) as nat)
    }
}

/// The part of a text from its byte `n` on, where a character begins there or
/// the text ends.
pub open spec fn from_byte(s: Seq<char>, n: nat) -> Option<Seq<char>> {
    match at_byte(s, 0, n) {
        Some(k) => Some(s.skip(k as int)),
        None => None,
    }
}

/// The number of bytes that a character takes in UTF-8.
pub fn char_width(c: char) -> (r: usize)
    ensures
        r as nat == utf8_width(c),
{
    if (c as u32) < 0x80 {
        1
    } else if (c as u32) < 0x800 {
        2
    } else if (c as u32) < 0x1_0000 {
        3
    } else {
        4
    }
}

/// The part of a text from one of its bytes on.
pub fn text_from_byte(s: &str, n: u128) -> (r: Option<String>)
    ensures
        opt_text(r) == from_byte(s@, n as nat),
{
    let x = chars_of(s);
    let mut left: u128 = n;
    let mut k: usize = 0;
    while left > 0
        invariant
            k <= x@.len(),
            x@ == s@,
            at_byte(x@, 0, n as nat) == at_byte(x@, k as nat, left as nat),
        decreases left,
    {
        if k >= x.len() {
            return None;
        }
        let w: u128 = char_width(x[k]) as u128;
        if w > left {
            return None;
        }
        left -= w;
        k += 1;
    }
    assert(x@.subrange(k as int, x@.len() as int) =~= x@.skip(k as int));
    Some(text_of(&x, k, x.len()))
}

/// The number of bytes that a text takes in UTF-8.
pub fn utf8_length(s: &str) -> (r: u128)
    ensures
        r as nat == utf8_len(s@),
        r <= 4 * s@.len(),
{
    let x = chars_of(s);
    let mut n: u128 = 0;
    let mut i: usize = 0;
    while i < x.len()
        invariant
            i <= x.len(),
            x@ == s@,
            n == utf8_len(x@.take(i as int)),
            n <= 4 * i,
        decreases x.len() - i,
    {
        assert(x@.take(i + 1).drop_last() =~= x@.take(i as int));
        n += char_width(x[i]) as u128;
        i += 1;
    }
    assert(x@.take(x@.len() as int) =~= x@);
    n
}

/// The part of a text before its byte `n`, where a character begins there or the
/// text ends.
pub open spec fn up_to_byte(s: Seq<char>, n: nat) -> Option<Seq<char>> {
    match at_byte(s, 0, n) {
        Some(k) => Some(s.take(k as int)),
        None => None,
    }
}

/// The part of a text before one of its bytes.
pub fn text_up_to_byte(s: &str, n: u128) -> (r: Option<String>)
    ensures
        opt_text(r) == up_to_byte(s@, n as nat),
{
    let x = chars_of(s);
    let mut left: u128 = n;
    let mut k: usize = 0;
    while left > 0
        invariant
            k <= x@.len(),
            x@ == s@,
            at_byte(x@, 0, n as nat) == at_byte(x@, k as nat, left as nat),
        decreases left,
    {
        if k >= x.len() {
            return None;
        }
        let w: u128 = char_width(x[k]) as u128;
        if w > left {
            return None;
        }
        left -= w;
        k += 1;
    }
    assert(x@.subrange(0, k as int) =~= x@.take(k as int));
    Some(text_of(&x, 0, k))
}

/// White space is taken off one end of a text, all of it and nothing else.
pub proof fn law_white_space_is_trimmed(white: Seq<char>, s: Seq<char>)
    requires
        forall|i: int| 0 <= i < white.len() ==> white_space(#[trigger] white[i]),
    ensures
        s.len() == 0 || !white_space(s[0]) ==> trim_start(white + s) == s,
        s.len() == 0 || !white_space(s.last()) ==> trim_end(s + white) == s,
    decreases white.len(),
{
    if white.len() == 0 {
        assert(white + s =~= s);
        assert(s + white =~= s);
    } else {
        let front = white.skip(1);
        assert forall|i: int| 0 <= i < front.len() implies white_space(#[trigger] front[i]) by {
            assert(front[i] == white[i + 1]);
        }
        law_white_space_is_trimmed(front, s);
        assert((white + s).skip(1) =~= front + s);
        assert((white + s)[0] == white[0]);
        let back = white.drop_last();
        law_white_space_is_trimmed(back, s);
        assert((s + white).drop_last() =~= s + back);
        assert((s + white).last() == white.last());
    }
}

/// A character is taken off one end of a text, as often as it stands there.
pub proof fn law_characters_are_trimmed(n: nat, s: Seq<char>, c: char)
    ensures
        s.len() == 0 || s[0] != c ==> trim_start_char(Seq::new(n, |i: int| c) + s, c) == s,
        s.len() == 0 || s.last() != c ==> trim_end_char(s + Seq::new(n, |i: int| c), c) == s,
    decreases n,
{
    let all = Seq::new(n, |i: int| c);
    if n == 0 {
        assert(all + s =~= s);
        assert(s + all =~= s);
    } else {
        let fewer = Seq::new((n - 1) as nat, |i: int| c);
        law_characters_are_trimmed((n - 1) as nat, s, c);
        assert((all + s).skip(1) =~= fewer + s);
        assert((all + s)[0] == c);
        assert((s + all).drop_last() =~= s + fewer);
        assert((s + all).last() == c);
    }
}

/// Capital letters of ASCII are put as their small forms and nothing else is changed.
pub proof fn law_capitals_are_lowered(s: Seq<char>, i: int)
    requires
        0 <= i < s.len(),
    ensures
        lowered(s).len() == s.len(),
        !uppercase(s[i]) ==> lowered(s)[i] == s[i],
        uppercase(s[i]) ==> lowercase(lowered(s)[i]) && lowered(s)[i] as int == s[i] as int + 32,
{
}

/// A number is read back from its digits.
pub proof fn law_numbers_are_read_back(n: nat, max: nat)
    ensures
        parsed(decimal(n)) == Some(n),
        n <= max ==> parsed_up_to(decimal(n), max) == Some(n),
        n > max ==> parsed_up_to(decimal(n), max) is None,
{
    reveal(parsed);
    lemma_digits(n);
    let d = decimal(n);
    assert(digit(d[0]));
}

proof fn lemma_digits(n: nat)
    ensures
        decimal(n).len() > 0,
        all_digits(decimal(n)),
        digits_value(decimal(n)) == n,
    decreases n,
{
    if n < 10 {
        assert(decimal(n).drop_last() =~= Seq::empty());
        reveal_with_fuel(digits_value, 2);
    } else {
        lemma_digits(n / 10);
        assert(decimal(n).drop_last() =~= decimal(n / 10));
    }
}

/// What is no number is not read as one.
pub proof fn law_other_texts_are_no_numbers(s: Seq<char>, i: int)
    requires
        0 < i < s.len(),
        !digit(s[i]),
    ensures
        parsed(s) is None,
        parsed(Seq::empty()) is None,
{
    reveal(parsed);
    let d = s.skip(1);
    assert(d[i - 1] == s[i]);
}

/// The first occurrence is replaced, and then the rest is looked at; a text without one
/// stays as it is.
pub proof fn law_occurrences_are_replaced(
    front: Seq<char>,
    p: Seq<char>,
    rest: Seq<char>,
    by: Seq<char>,
)
    requires
        p.len() > 0,
        forall|j: int| 0 <= j < front.len() ==> !#[trigger] occurs_at(front + p + rest, p, j),
    ensures
        replaced(front + p + rest, p, by) == front + by + replaced(rest, p, by),
{
    let s = front + p + rest;
    let at = front.len();
    assert(s.subrange(at as int, (at + p.len()) as int) =~= p);
    assert(occurs_at(s, p, at as int));
    lemma_find_from(s, p, 0);
    assert(s.take(at as int) =~= front);
    assert(s.skip((at + p.len()) as int) =~= rest);
}

/// A text in which nothing is found stays as it is.
pub proof fn law_nothing_is_replaced(s: Seq<char>, p: Seq<char>, by: Seq<char>)
    requires
        !occurs(s, p),
    ensures
        replaced(s, p, by) == s,
{
    lemma_find_from(s, p, 0);
}

/// A separator between two texts parts their pieces.
pub proof fn law_pieces_are_parted(a: Seq<char>, b: Seq<char>, c: char)
    ensures
        split(a + seq![c] + b, c) == split(a, c) + split(b, c),
        !a.contains(c) ==> split(a, c) == seq![a],
    decreases a.len() + b.len(),
{
    let s = a + seq![c] + b;
    if b.len() == 0 {
        assert(s.drop_last() =~= a);
        assert(s.last() == c);
        assert(split(s, c) =~= split(a, c) + split(b, c));
    } else {
        let head = b.drop_last();
        law_pieces_are_parted(a, head, c);
        lemma_split_pieces(head, c);
        assert(s.drop_last() =~= a + seq![c] + head);
        assert(s.last() == b.last());
        assert(split(s, c) =~= split(a, c) + split(b, c));
    }
    if !a.contains(c) {
        lemma_one_piece(a, c);
    }
}

proof fn lemma_one_piece(a: Seq<char>, c: char)
    requires
        !a.contains(c),
    ensures
        split(a, c) == seq![a],
    decreases a.len(),
{
    if a.len() > 0 {
        let head = a.drop_last();
        assert(a.contains(a[a.len() - 1]));
        assert forall|x: char| head.contains(x) implies a.contains(x) by {
            let i = choose|i: int| 0 <= i < head.len() && head[i] == x;
            assert(a[i] == x);
        }
        lemma_one_piece(head, c);
        assert(head.push(a.last()) =~= a);
        assert(split(a, c) =~= seq![a]);
    } else {
        assert(a =~= Seq::empty());
    }
}

/// Pieces without the separator that were joined are found again.
pub proof fn law_joined_pieces_are_found(parts: Seq<Seq<char>>, c: char)
    requires
        parts.len() > 0,
        forall|i: int| 0 <= i < parts.len() ==> !(#[trigger] parts[i]).contains(c),
    ensures
        split(join(parts, seq![c]), c) == parts,
    decreases parts.len(),
{
    if parts.len() == 1 {
        law_pieces_are_parted(parts[0], Seq::empty(), c);
        assert(parts =~= seq![parts[0]]);
    } else {
        let head = parts.drop_last();
        law_joined_pieces_are_found(head, c);
        law_pieces_are_parted(join(head, seq![c]), parts.last(), c);
        assert(!parts[parts.len() - 1].contains(c));
        law_pieces_are_parted(parts.last(), Seq::empty(), c);
        assert(split(join(parts, seq![c]), c) =~= head + seq![parts.last()]);
        assert(parts =~= head + seq![parts.last()]);
    }
}

/// White space between two texts parts their words, and a text without it is one word.
pub proof fn law_words_are_parted(a: Seq<char>, b: Seq<char>, w: char)
    requires
        white_space(w),
    ensures
        words(a + seq![w] + b) == words(a) + words(b),
    decreases b.len(),
{
    let s = a + seq![w] + b;
    if b.len() == 0 {
        assert(s.drop_last() =~= a);
        assert(s.last() == w);
        assert(words(s) =~= words(a) + words(b));
    } else {
        let head = b.drop_last();
        law_words_are_parted(a, head, w);
        assert(s.drop_last() =~= a + seq![w] + head);
        assert(s.last() == b.last());
        if b.len() >= 2 {
            assert(s[s.len() - 2] == b[b.len() - 2]);
            if !white_space(b[b.len() - 2]) {
                lemma_some_word(head);
            }
        } else {
            assert(s[s.len() - 2] == w);
        }
        assert(words(s) =~= words(a) + words(b));
    }
}

proof fn lemma_some_word(s: Seq<char>)
    requires
        s.len() > 0,
        !white_space(s.last()),
    ensures
        words(s).len() > 0,
    decreases s.len(),
{
    if s.len() >= 2 && !white_space(s[s.len() - 2]) {
        lemma_some_word(s.drop_last());
    }
}

/// A text without white space is one word.
pub proof fn law_plain_texts_are_words(s: Seq<char>)
    requires
        s.len() > 0,
        forall|i: int| 0 <= i < s.len() ==> !white_space(#[trigger] s[i]),
    ensures
        words(s) == seq![s],
    decreases s.len(),
{
    if s.len() >= 2 {
        law_plain_texts_are_words(s.drop_last());
        assert(s.drop_last().push(s.last()) =~= s);
        assert(words(s) =~= seq![s]);
    } else {
        assert(s.drop_last().len() == 0);
        assert(words(s.drop_last()).len() == 0);
        assert(seq![s.last()] =~= s);
        assert(words(s) =~= seq![s]);
    }
}

/// A line end parts the line before it from those behind it; a carriage return before it
/// belongs to it.
pub proof fn law_line_ends_part_lines(line: Seq<char>, rest: Seq<char>)
    requires
        !line.contains('\n'),
    ensures
        lines(line + seq!['\n'] + rest) == seq![without_return(line)] + lines(rest),
        line.len() > 0 ==> lines(line) == seq![line],
        lines(Seq::empty()).len() == 0,
        without_return(line + seq!['\r']) == line,
        line.len() > 0 && line.last() != '\r' ==> without_return(line) == line,
{
    let s = line + seq!['\n'] + rest;
    law_pieces_are_parted(line, rest, '\n');
    lemma_split_pieces(rest, '\n');
    let pieces = split(s, '\n');
    let behind = split(rest, '\n');
    assert(pieces =~= seq![line] + behind);
    assert(pieces.drop_last() =~= seq![line] + behind.drop_last());
    assert(pieces.last() == behind.last());
    assert(lines(s) =~= seq![without_return(line)] + lines(rest));
    assert(seq![line].drop_last() =~= Seq::empty());
    assert(line.len() > 0 ==> lines(line) =~= seq![line]);
    assert((line + seq!['\r']).drop_last() =~= line);
}

/// Texts are in the order of the first character in which they differ; a text stands
/// before any longer one that it begins.
pub proof fn law_first_difference_decides(
    common: Seq<char>,
    x: char,
    y: char,
    a: Seq<char>,
    b: Seq<char>,
)
    ensures
        x < y ==> before(common + seq![x] + a, common + seq![y] + b),
        x > y ==> !before(common + seq![x] + a, common + seq![y] + b),
        before(common, common + seq![x] + a),
        !before(common + seq![x] + a, common),
        !before(common, common),
    decreases common.len(),
{
    let s = common + seq![x] + a;
    let t = common + seq![y] + b;
    if common.len() > 0 {
        let rest = common.skip(1);
        law_first_difference_decides(rest, x, y, a, b);
        assert(s.skip(1) =~= rest + seq![x] + a);
        assert(t.skip(1) =~= rest + seq![y] + b);
        assert(s[0] == common[0] && t[0] == common[0]);
    } else {
        assert(s[0] == x && t[0] == y);
    }
}

/// The bytes of two texts add up, and the part of a text up to a byte has that many.
pub proof fn law_bytes_add_up(a: Seq<char>, b: Seq<char>)
    ensures
        utf8_len(a + b) == utf8_len(a) + utf8_len(b),
    decreases b.len(),
{
    if b.len() == 0 {
        assert(a + b =~= a);
    } else {
        law_bytes_add_up(a, b.drop_last());
        assert((a + b).drop_last() =~= a + b.drop_last());
        assert((a + b).last() == b.last());
    }
}

/// The part of a text up to a byte has that many bytes, and the part from it on is the
/// rest.
pub proof fn law_texts_are_cut_at_bytes(s: Seq<char>, n: nat)
    ensures
        up_to_byte(s, n) matches Some(head) ==> utf8_len(head) == n && head.is_prefix_of(s),
        up_to_byte(s, n) is Some <==> from_byte(s, n) is Some,
        up_to_byte(s, n) matches Some(head) ==> (from_byte(s, n) matches Some(tail) ==> head + tail
            == s),
{
    lemma_cut(s, 0, n);
    if let Some(k) = at_byte(s, 0, n) {
        assert(s.take(k as int) =~= s.subrange(0, k as int));
        assert(s.take(k as int) + s.skip(k as int) =~= s);
    }
}

proof fn lemma_cut(s: Seq<char>, from: nat, left: nat)
    requires
        from <= s.len(),
    ensures
        at_byte(s, from, left) matches Some(k) ==> from <= k <= s.len() && utf8_len(
            s.subrange(from as int, k as int),
        ) == left,
    decreases s.len() - from,
{
    if left == 0 {
        assert(s.subrange(from as int, from as int).len() == 0);
    } else if from < s.len() && utf8_width(s[from as int]) <= left {
        let one = s.subrange(from as int, from as int + 1);
        lemma_cut(s, from + 1, (left - utf8_width(s[from as int])) as nat);
        assert(one.drop_last().len() == 0);
        reveal_with_fuel(utf8_len, 2);
        assert(utf8_len(one) == utf8_width(s[from as int]));
        if let Some(k) = at_byte(s, from, left) {
            let rest = s.subrange(from as int + 1, k as int);
            law_bytes_add_up(one, rest);
            assert(s.subrange(from as int, k as int) =~= one + rest);
        }
    }
}

} // verus!
