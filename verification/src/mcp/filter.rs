//! Which command tools are exposed to MCP clients.

use vstd::prelude::*;
use crate::text::{
    chars_of, find_from, find_text, lemma_find_from, lemma_split_pieces, matches_at, occurs_at,
    split, split_at_char, texts,
};

verus! {

/// MCP tool discovery strategy.
#[derive(Debug, Clone, Copy, PartialEq, Eq, Structural)]
pub enum McpDiscovery {
    /// Expose search, inspect, and execute tools that discover commands lazily.
    Progressive,
    /// Expose every command as a direct MCP tool.
    Direct,
}

impl Default for McpDiscovery {
    fn default() -> (r: Self)
        ensures
            r == McpDiscovery::Progressive,
    {
        McpDiscovery::Progressive
    }
}

/// Filters which command tools are exposed to MCP clients.
#[derive(Debug, Clone)]
pub struct McpToolFilter {
    /// Discovery strategy. Defaults to progressive discovery.
    pub discovery: McpDiscovery,
    /// Glob patterns selecting tools to include.
    pub included: Vec<String>,
    /// Glob patterns selecting tools to exclude. Excludes win.
    pub excluded: Vec<String>,
}

impl Default for McpToolFilter {
    fn default() -> (r: Self)
        ensures
            r.discovery == McpDiscovery::Progressive,
            r.included@.len() == 0,
            r.excluded@.len() == 0,
    {
        McpToolFilter {
            discovery: McpDiscovery::Progressive,
            included: Vec::new(),
            excluded: Vec::new(),
        }
    }
}

/// Whether the parts from `j` on stand at the places `at`: in their order, not
/// before `from`, none of them over another, and the last one at the end of the
/// text.
pub open spec fn placed(
    parts: Seq<Seq<char>>,
    j: nat,
    text: Seq<char>,
    from: nat,
    at: Seq<nat>,
) -> bool {
    &&& at.len() > 0
    &&& at.len() == parts.len() - j
    &&& from <= at[0]
    &&& forall|i: int|
        0 <= i < at.len() ==> occurs_at(text, parts[j + i], #[trigger] at[i] as int)
    &&& forall|i: int, k: int|
        0 <= i < k < at.len() ==> #[trigger] at[i] + parts[j + i].len() <= #[trigger] at[k]
    &&& at.last() + parts.last().len() == text.len()
}

/// Whether the parts from `j` on make up the end of the text, with any text
/// between two of them, behind `from`.
pub open spec fn fits_behind(parts: Seq<Seq<char>>, j: nat, text: Seq<char>, from: nat) -> bool {
    exists|at: Seq<nat>| placed(parts, j, text, from, at)
}

/// Whether a pattern matches a text: each `*` stands for any text.
pub open spec fn glob(pattern: Seq<char>, text: Seq<char>) -> bool {
    exists|at: Seq<nat>| placed(split(pattern, '*'), 0, text, 0, at) && at[0] == 0
}

/// Whether one of the patterns matches the text.
pub open spec fn any_glob(patterns: Seq<Seq<char>>, text: Seq<char>) -> bool {
    exists|i: int| 0 <= i < patterns.len() && #[trigger] glob(patterns[i], text)
}

/// Whether the filter lets the tool through.
pub open spec fn selected(name: Seq<char>, filter: McpToolFilter) -> bool {
    (filter.included@.len() == 0 || any_glob(texts(filter.included@), name)) && !any_glob(
        texts(filter.excluded@),
        name,
    )
}

/// The leftmost place of a part is as good as any other: the parts fit behind
/// `from` exactly if the first of them occurs there and the others fit behind
/// its leftmost occurrence.
proof fn lemma_leftmost(parts: Seq<Seq<char>>, j: nat, text: Seq<char>, from: nat)
    requires
        j + 1 < parts.len(),
    ensures
        fits_behind(parts, j, text, from) == match find_from(text, parts[j as int], from) {
            Some(at) => fits_behind(parts, j + 1, text, at + parts[j as int].len()),
            None => false,
        },
{
    let part = parts[j as int];
    lemma_find_from(text, part, from);
    if fits_behind(parts, j, text, from) {
        let at = choose|at: Seq<nat>| placed(parts, j, text, from, at);
        assert(occurs_at(text, parts[j + 0int], at[0] as int));
        let first = find_from(text, part, from)->0;
        let rest = at.skip(1);
        assert(at[0] + parts[j + 0int].len() <= at[1]);
        assert forall|i: int| 0 <= i < rest.len() implies occurs_at(
            text,
            parts[j + 1 + i],
            #[trigger] rest[i] as int,
        ) by {
            assert(rest[i] == at[i + 1]);
        }
        assert forall|i: int, k: int| 0 <= i < k < rest.len() implies #[trigger] rest[i] + parts[j
            + 1 + i].len() <= #[trigger] rest[k] by {
            assert(rest[i] == at[i + 1]);
            assert(rest[k] == at[k + 1]);
        }
        assert(placed(parts, j + 1, text, first + part.len(), rest));
    }
    if let Some(first) = find_from(text, part, from) {
        if fits_behind(parts, j + 1, text, first + part.len()) {
            let next = j + 1;
            let behind = first + part.len();
            let rest = choose|at: Seq<nat>| placed(parts, next, text, behind, at);
            lemma_before(parts, j, text, from, first, rest);
        }
    }
}

/// A part in front of the others.
proof fn lemma_before(
    parts: Seq<Seq<char>>,
    j: nat,
    text: Seq<char>,
    from: nat,
    first: nat,
    rest: Seq<nat>,
)
    requires
        j + 1 < parts.len(),
        from <= first,
        occurs_at(text, parts[j as int], first as int),
        placed(parts, j + 1, text, first + parts[j as int].len(), rest),
    ensures
        placed(parts, j, text, from, seq![first] + rest),
{
    let at = seq![first] + rest;
    assert forall|i: int| 0 <= i < at.len() implies occurs_at(
        text,
        parts[j + i],
        #[trigger] at[i] as int,
    ) by {
        if i > 0 {
            assert(at[i] == rest[i - 1]);
            assert(parts[j + 1 + (i - 1)] == parts[j + i]);
        }
    }
    assert forall|i: int, k: int| 0 <= i < k < at.len() implies #[trigger] at[i] + parts[j
        + i].len() <= #[trigger] at[k] by {
        assert(at[k] == rest[k - 1]);
        if i > 0 {
            assert(at[i] == rest[i - 1]);
            assert(parts[j + 1 + (i - 1)] == parts[j + i]);
        } else {
            assert(rest[0] <= rest[k - 1]);
        }
    }
}

/// The last part fits behind `from` exactly if it occurs there and the text
/// ends with it.
proof fn lemma_last(parts: Seq<Seq<char>>, text: Seq<char>, from: nat)
    requires
        parts.len() > 0,
    ensures
        fits_behind(parts, (parts.len() - 1) as nat, text, from) == (find_from(
            text,
            parts.last(),
            from,
        ) is Some && parts.last().is_suffix_of(text)),
{
    let j = (parts.len() - 1) as nat;
    let part = parts.last();
    lemma_find_from(text, part, from);
    if fits_behind(parts, j, text, from) {
        let at = choose|at: Seq<nat>| placed(parts, j, text, from, at);
        assert(occurs_at(text, parts[j + 0int], at[0] as int));
        assert(text.subrange(text.len() - part.len(), text.len() as int) =~= part);
    }
    if find_from(text, part, from) is Some && part.is_suffix_of(text) {
        let k = (text.len() - part.len()) as nat;
        assert(occurs_at(text, part, k as int));
        assert(placed(parts, j, text, from, seq![k]));
    }
}

/// A pattern of several parts matches exactly if the text begins with the first
/// and the others fit behind it.
proof fn lemma_glob_parts(parts: Seq<Seq<char>>, text: Seq<char>)
    requires
        parts.len() > 0,
    ensures
        (exists|at: Seq<nat>| placed(parts, 0, text, 0, at) && at[0] == 0) == (occurs_at(
            text,
            parts[0],
            0,
        ) && if parts.len() == 1 {
            parts[0].len() == text.len()
        } else {
            fits_behind(parts, 1, text, parts[0].len())
        }),
{
    if exists|at: Seq<nat>| placed(parts, 0, text, 0, at) && at[0] == 0 {
        let at = choose|at: Seq<nat>| placed(parts, 0, text, 0, at) && at[0] == 0;
        assert(occurs_at(text, parts[0], at[0] as int));
        lemma_find_from(text, parts[0], 0);
        if parts.len() > 1 {
            assert(fits_behind(parts, 0, text, 0));
            lemma_leftmost(parts, 0, text, 0);
        }
    }
    if occurs_at(text, parts[0], 0) {
        if parts.len() == 1 {
            if parts[0].len() == text.len() {
                assert(placed(parts, 0, text, 0, seq![0nat]));
            }
        } else if fits_behind(parts, 1, text, parts[0].len()) {
            let behind = parts[0].len();
            let rest = choose|at: Seq<nat>| placed(parts, 1, text, behind, at);
            lemma_before(parts, 0, text, 0, 0, rest);
            assert((seq![0nat] + rest)[0] == 0);
        }
    }
}

/// Whether a pattern matches a text.
fn wildcard_matches(pattern: &str, value: &str) -> (r: bool)
    ensures
        r == glob(pattern@, value@),
{
    let parts = split_at_char(pattern, '*');
    let ghost all = texts(parts@);
    proof {
        lemma_split_pieces(pattern@, '*');
        lemma_glob_parts(all, value@);
        assert forall|i: int| 0 <= i < parts@.len() implies all[i] == #[trigger] parts@[i]@ by {}
    }
    let text = chars_of(value);
    let first = chars_of(parts[0].as_str());
    if !matches_at(&text, &first, 0) {
        return false;
    }
    if parts.len() == 1 {
        return first.len() == text.len();
    }
    let mut offset: usize = first.len();
    let mut index: usize = 1;
    while index < parts.len() - 1
        invariant
            all == texts(parts@),
            all.len() == parts@.len(),
            forall|i: int| 0 <= i < parts@.len() ==> all[i] == #[trigger] parts@[i]@,
            1 <= index < parts.len(),
            offset <= text.len(),
            text@ == value@,
            glob(pattern@, value@) == fits_behind(all, index as nat, value@, offset as nat),
        decreases parts.len() - index,
    {
        let part = chars_of(parts[index].as_str());
        proof {
            lemma_leftmost(all, index as nat, value@, offset as nat);
            lemma_find_from(value@, all[index as int], offset as nat);
        }
        match find_text(&text, &part, offset) {
            Some(at) => {
                assert(at + part@.len() <= text@.len());
                offset = at + part.len();
            },
            None => {
                return false;
            },
        }
        index += 1;
    }
    let last = chars_of(parts[parts.len() - 1].as_str());
    proof {
        lemma_last(all, value@, offset as nat);
        lemma_find_from(value@, all.last(), offset as nat);
    }
    match find_text(&text, &last, offset) {
        Some(_) => matches_at(&text, &last, text.len() - last.len()),
        None => false,
    }
}

/// Whether one of the patterns matches the text.
fn any_matches(patterns: &Vec<String>, value: &str) -> (r: bool)
    ensures
        r == any_glob(texts(patterns@), value@),
{
    let ghost all = texts(patterns@);
    let mut i: usize = 0;
    while i < patterns.len()
        invariant
            i <= patterns@.len(),
            all == texts(patterns@),
            forall|k: int| 0 <= k < i ==> !(#[trigger] glob(all[k], value@)),
        decreases patterns.len() - i,
    {
        assert(all[i as int] == patterns@[i as int]@);
        if wildcard_matches(patterns[i].as_str(), value) {
            return true;
        }
        i += 1;
    }
    false
}

/// Whether the filter lets the tool of this name through.
pub fn matches_tool_filter(name: &str, filter: &McpToolFilter) -> (r: bool)
    ensures
        r == selected(name@, *filter),
{
    let accepted = filter.included.len() == 0 || any_matches(&filter.included, name);
    accepted && !any_matches(&filter.excluded, name)
}

// ---------------------------------------------------------------------------
// Laws
// ---------------------------------------------------------------------------

/// Excludes win: a tool that an exclude pattern matches is never exposed.
pub proof fn law_excludes_win(name: Seq<char>, filter: McpToolFilter)
    requires
        any_glob(texts(filter.excluded@), name),
    ensures
        !selected(name, filter),
{
}

/// A text without the separator is its own only piece.
proof fn lemma_split_plain(s: Seq<char>, c: char)
    requires
        !s.contains(c),
    ensures
        split(s, c) == seq![s],
    decreases s.len(),
{
    if s.len() > 0 {
        assert forall|i: int| 0 <= i < s.len() - 1 implies s.drop_last()[i] != c by {
            assert(s[i] != c);
        }
        lemma_split_plain(s.drop_last(), c);
        assert(s[s.len() - 1] != c);
        assert(s.drop_last().push(s.last()) =~= s);
        assert(split(s, c) =~= seq![s]);
    } else {
        assert(s =~= Seq::empty());
    }
}

/// A pattern without `*` matches itself and nothing else.
pub proof fn law_plain_pattern_is_exact(pattern: Seq<char>, text: Seq<char>)
    requires
        !pattern.contains('*'),
    ensures
        glob(pattern, text) == (pattern == text),
{
    lemma_split_plain(pattern, '*');
    lemma_glob_parts(seq![pattern], text);
    if glob(pattern, text) {
        assert(text =~= pattern);
    }
    if pattern == text {
        assert(text.subrange(0, text.len() as int) =~= text);
    }
}

/// A pattern that ends in its only `*` matches the texts that begin with what
/// stands before it.
pub proof fn law_prefix_pattern(prefix: Seq<char>, text: Seq<char>)
    requires
        !prefix.contains('*'),
    ensures
        glob(prefix.push('*'), text) == prefix.is_prefix_of(text),
{
    let pattern = prefix.push('*');
    lemma_split_plain(prefix, '*');
    assert(pattern.drop_last() =~= prefix);
    let parts = split(pattern, '*');
    assert(parts =~= seq![prefix, Seq::<char>::empty()]);
    lemma_glob_parts(parts, text);
    lemma_last(parts, text, prefix.len());
    assert(parts.last() =~= Seq::empty());
    if prefix.is_prefix_of(text) {
        assert(text.subrange(0, prefix.len() as int) =~= prefix);
        assert(text.subrange(prefix.len() as int, prefix.len() as int) =~= Seq::empty());
        assert(occurs_at(text, parts.last(), prefix.len() as int));
        assert(text.subrange(text.len() as int, text.len() as int) =~= Seq::empty());
    }
    if glob(pattern, text) {
        assert(text.subrange(0, prefix.len() as int) == prefix);
    }
}

/// The pattern `*` matches every text.
pub proof fn law_star_matches_all(text: Seq<char>)
    ensures
        glob("*"@, text),
{
    reveal_strlit("*");
    assert("*"@ =~= Seq::<char>::empty().push('*'));
    law_prefix_pattern(Seq::empty(), text);
}

/// A tool is selected exactly where some pattern includes it, or none is given for that,
/// and no pattern excludes it.
pub proof fn law_included_tools_are_selected(name: Seq<char>, filter: McpToolFilter)
    ensures
        filter.included@.len() == 0 && filter.excluded@.len() == 0 ==> selected(name, filter),
        selected(name, filter) <==> (filter.included@.len() == 0 || exists|i: int|
            0 <= i < filter.included@.len() && glob(#[trigger] filter.included@[i]@, name)) && !(
        exists|i: int|
            0 <= i < filter.excluded@.len() && glob(#[trigger] filter.excluded@[i]@, name)),
{
    lemma_any_of(filter.included@, name);
    lemma_any_of(filter.excluded@, name);
}

proof fn lemma_any_of(patterns: Seq<String>, name: Seq<char>)
    ensures
        any_glob(texts(patterns), name) <==> exists|i: int|
            0 <= i < patterns.len() && glob(#[trigger] patterns[i]@, name),
{
    if any_glob(texts(patterns), name) {
        let i = choose|i: int|
            0 <= i < texts(patterns).len() && #[trigger] glob(texts(patterns)[i], name);
        assert(glob(patterns[i]@, name));
    }
    if exists|i: int| 0 <= i < patterns.len() && glob(#[trigger] patterns[i]@, name) {
        let i = choose|i: int| 0 <= i < patterns.len() && glob(#[trigger] patterns[i]@, name);
        assert(glob(texts(patterns)[i], name));
    }
}

} // verus!
