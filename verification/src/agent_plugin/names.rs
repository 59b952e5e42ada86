//! Names, paths, addresses and headers that a package may hold.

use vstd::prelude::*;
use crate::text::{
    alphanumeric, chars_of, contains, contains_char, digit, ends_with, find_char, find_char_from,
    has_white_space, is_alphanumeric, is_digit, is_lowercase, lemma_find_char_from,
    lemma_split_pieces, lowercase, lowered, occurs, parse_up_to, parsed_up_to, same,
    same_ignoring_case, split, split_at_char, starts_with, strip_prefix, text_of, texts,
    white_space,
};

verus! {

/// Whether a character is a lowercase letter or a digit.
pub open spec fn lower_or_digit(c: char) -> bool {
    lowercase(c) || digit(c)
}

fn is_lower_or_digit(c: char) -> (r: bool)
    ensures
        r == lower_or_digit(c),
{
    is_lowercase(c) || is_digit(c)
}

/// Whether a text is not empty, begins and ends in a lowercase letter or a
/// digit, and holds nothing but these, dashes and, where they are allowed, dots.
pub open spec fn label(s: Seq<char>, dots: bool) -> bool {
    &&& s.len() > 0
    &&& lower_or_digit(s[0])
    &&& lower_or_digit(s.last())
    &&& forall|i: int|
        0 <= i < s.len() ==> lower_or_digit(#[trigger] s[i]) || s[i] == '-' || (dots && s[i]
            == '.')
}

fn is_label(s: &str, dots: bool) -> (r: bool)
    ensures
        r == label(s@, dots),
{
    let x = chars_of(s);
    if x.len() == 0 || !is_lower_or_digit(x[0]) || !is_lower_or_digit(x[x.len() - 1]) {
        return false;
    }
    let mut i: usize = 0;
    while i < x.len()
        invariant
            i <= x@.len(),
            x@ == s@,
            forall|k: int|
                0 <= k < i ==> lower_or_digit(#[trigger] x@[k]) || x@[k] == '-' || (dots && x@[k]
                    == '.'),
        decreases x.len() - i,
    {
        let c = x[i];
        if !(is_lower_or_digit(c) || c == '-' || (dots && c == '.')) {
            return false;
        }
        i += 1;
    }
    true
}

/// Whether a name can be that of a plugin: a label with dots of at most 64
/// characters without two dots or two dashes behind each other.
pub open spec fn plugin_name(s: Seq<char>) -> bool {
    label(s, true) && s.len() <= 64 && !occurs(s, ".."@) && !occurs(s, "--"@)
}

/// Whether a name can be that of a plugin.
pub fn is_plugin_name(name: &str) -> (r: bool)
    ensures
        r == plugin_name(name@),
{
    if contains(name, "..") || contains(name, "--") {
        return false;
    }
    is_label(name, true) && chars_of(name).len() <= 64
}

/// Whether a name can be that of a skill: a label of at most 64 characters
/// without two dashes behind each other.
pub open spec fn skill_name(s: Seq<char>) -> bool {
    label(s, false) && s.len() <= 64 && !occurs(s, "--"@)
}

/// Whether a name can be that of a skill.
pub fn is_skill_name(name: &str) -> (r: bool)
    ensures
        r == skill_name(name@),
{
    !contains(name, "--") && is_label(name, false) && chars_of(name).len() <= 64
}

/// Whether a name is that of a domain written backwards: two labels or more with
/// dots between them.
pub open spec fn extension_namespace(s: Seq<char>) -> bool {
    let parts = split(s, '.');
    parts.len() >= 2 && forall|i: int| 0 <= i < parts.len() ==> label(#[trigger] parts[i], false)
}

/// Whether a name is that of a domain written backwards.
pub fn is_extension_namespace(namespace: &str) -> (r: bool)
    ensures
        r == extension_namespace(namespace@),
{
    let parts = split_at_char(namespace, '.');
    let ghost all = texts(parts@);
    if parts.len() < 2 {
        return false;
    }
    let mut i: usize = 0;
    while i < parts.len()
        invariant
            i <= parts@.len(),
            all == texts(parts@),
            all == split(namespace@, '.'),
            forall|k: int| 0 <= k < i ==> label(#[trigger] all[k], false),
        decreases parts.len() - i,
    {
        assert(all[i as int] == parts@[i as int]@);
        if !is_label(parts[i].as_str(), false) {
            return false;
        }
        i += 1;
    }
    true
}

/// Whether a character can stand in the path of a bundled command.
pub open spec fn path_char(c: char) -> bool {
    alphanumeric(c) || c == '-' || c == '_' || c == '.'
}

/// Whether a text is a step of a path to a bundled command.
pub open spec fn path_step(s: Seq<char>) -> bool {
    s.len() > 0 && s != "."@ && forall|i: int| 0 <= i < s.len() ==> path_char(#[trigger] s[i])
}

fn is_path_step(s: &str) -> (r: bool)
    ensures
        r == path_step(s@),
{
    let x = chars_of(s);
    if x.len() == 0 || same(s, ".") {
        return false;
    }
    let mut i: usize = 0;
    while i < x.len()
        invariant
            i <= x@.len(),
            x@ == s@,
            forall|k: int| 0 <= k < i ==> path_char(#[trigger] x@[k]),
        decreases x.len() - i,
    {
        let c = x[i];
        if !(is_alphanumeric(c) || c == '-' || c == '_' || c == '.') {
            return false;
        }
        i += 1;
    }
    true
}

/// Whether a command that begins with `./` is a path below the package.
pub open spec fn plugin_relative_path(s: Seq<char>) -> bool {
    let steps = split(s.skip("./"@.len() as int), '/');
    &&& !s.contains('\\')
    &&& !occurs(s, ".."@)
    &&& !"/"@.is_suffix_of(s)
    &&& forall|i: int| 0 <= i < steps.len() ==> path_step(#[trigger] steps[i])
}

/// Whether a command that begins with `./` is a path below the package.
pub fn is_plugin_relative_path(command: &str) -> (r: bool)
    requires
        "./"@.is_prefix_of(command@),
    ensures
        r == plugin_relative_path(command@),
{
    if contains_char(command, '\\') || contains(command, "..") || ends_with(command, "/") {
        return false;
    }
    let rest = match strip_prefix(command, "./") {
        Some(rest) => rest,
        None => {
            return false;
        },
    };
    let steps = split_at_char(rest.as_str(), '/');
    let ghost all = texts(steps@);
    let mut i: usize = 0;
    while i < steps.len()
        invariant
            i <= steps@.len(),
            all == texts(steps@),
            all == split(command@.skip("./"@.len() as int), '/'),
            forall|k: int| 0 <= k < i ==> path_step(#[trigger] all[k]),
        decreases steps.len() - i,
    {
        assert(all[i as int] == steps@[i as int]@);
        if !is_path_step(steps[i].as_str()) {
            return false;
        }
        i += 1;
    }
    true
}

/// Whether a text holds white space.
pub open spec fn holds_white_space(s: Seq<char>) -> bool {
    exists|i: int| 0 <= i < s.len() && white_space(#[trigger] s[i])
}

/// Whether a command can start a server: a bare token, or a path below the
/// package.
pub open spec fn mcp_command(s: Seq<char>) -> bool {
    &&& s.len() > 0
    &&& !holds_white_space(s)
    &&& if "./"@.is_prefix_of(s) {
        plugin_relative_path(s)
    } else {
        !s.contains('/') && !s.contains('\\') && s != "."@ && s != ".."@
    }
}

/// Whether a command can start a server.
pub fn is_mcp_command(command: &str) -> (r: bool)
    ensures
        r == mcp_command(command@),
{
    if chars_of(command).len() == 0 || has_white_space(command) {
        return false;
    }
    if starts_with(command, "./") {
        return is_plugin_relative_path(command);
    }
    !contains_char(command, '/') && !contains_char(command, '\\') && !same(command, ".") && !same(
        command,
        "..",
    )
}

/// Whether a text is a step of a path that leads downwards.
pub open spec fn safe_step(s: Seq<char>) -> bool {
    s.len() > 0 && s != "."@ && s != ".."@ && !s.contains('\0')
}

/// Whether a path is relative and leads downwards only.
pub open spec fn safe_relative_path(s: Seq<char>) -> bool {
    let steps = split(s, '/');
    &&& s.len() > 0
    &&& !s.contains('\\')
    &&& forall|i: int| 0 <= i < steps.len() ==> safe_step(#[trigger] steps[i])
}

/// Whether a path is relative and leads downwards only.
pub fn is_safe_relative_path(path: &str) -> (r: bool)
    ensures
        r == safe_relative_path(path@),
{
    if chars_of(path).len() == 0 || contains_char(path, '\\') {
        return false;
    }
    let steps = split_at_char(path, '/');
    let ghost all = texts(steps@);
    let mut i: usize = 0;
    while i < steps.len()
        invariant
            i <= steps@.len(),
            all == texts(steps@),
            all == split(path@, '/'),
            forall|k: int| 0 <= k < i ==> safe_step(#[trigger] all[k]),
        decreases steps.len() - i,
    {
        assert(all[i as int] == steps@[i as int]@);
        let step = steps[i].as_str();
        if chars_of(step).len() == 0 || same(step, ".") || same(step, "..") || contains_char(
            step,
            '\0',
        ) {
            return false;
        }
        i += 1;
    }
    true
}

/// The part of a text before a character, and all of it where the character does
/// not occur.
pub open spec fn up_to(s: Seq<char>, c: char) -> Seq<char> {
    match find_char_from(s, c, 0) {
        Some(i) => s.take(i as int),
        None => s,
    }
}

/// The part of a text before a character.
pub fn text_up_to(s: &str, c: char) -> (r: String)
    ensures
        r@ == up_to(s@, c),
{
    let x = chars_of(s);
    proof {
        lemma_find_char_from(s@, c, 0);
    }
    let end: usize = match find_char(&x, c, 0) {
        Some(i) => i,
        None => x.len(),
    };
    assert(x@.subrange(0, end as int) =~= up_to(s@, c));
    text_of(&x, 0, end)
}

/// The host of an address: between brackets where it begins with one, and before
/// the port otherwise.
pub open spec fn host_of(authority: Seq<char>) -> Option<Seq<char>> {
    let host = if "["@.is_prefix_of(authority) {
        let rest = authority.skip("["@.len() as int);
        if find_char_from(rest, ']', 0) is Some {
            up_to(rest, ']')
        } else {
            Seq::empty()
        }
    } else {
        up_to(authority, ':')
    };
    if host.len() == 0 {
        None
    } else {
        Some(host)
    }
}

fn unless_empty(host: String) -> (r: Option<String>)
    ensures
        crate::text::opt_text(r) == (if host@.len() == 0 {
            None
        } else {
            Some(host@)
        }),
{
    if chars_of(host.as_str()).len() == 0 {
        None
    } else {
        Some(host)
    }
}

/// The host of an address.
pub fn url_host(authority: &str) -> (r: Option<String>)
    ensures
        crate::text::opt_text(r) == host_of(authority@),
{
    if let Some(rest) = strip_prefix(authority, "[") {
        let x = chars_of(rest.as_str());
        if find_char(&x, ']', 0).is_none() {
            return None;
        }
        return unless_empty(text_up_to(rest.as_str(), ']'));
    }
    unless_empty(text_up_to(authority, ':'))
}

/// Whether a host is the machine itself.
pub open spec fn loopback_host(host: Seq<char>) -> bool {
    let parts = split(host, '.');
    ||| lowered(host) == lowered("localhost"@)
    ||| host == "::1"@
    ||| {
        &&& parts.len() == 4
        &&& parts[0] == "127"@
        &&& forall|i: int|
            0 <= i < 4 ==> parsed_up_to(#[trigger] parts[i], 255) is Some
    }
}

/// Whether a host is the machine itself.
pub fn is_loopback_host(host: &str) -> (r: bool)
    ensures
        r == loopback_host(host@),
{
    if same_ignoring_case(host, "localhost") || same(host, "::1") {
        return true;
    }
    let parts = split_at_char(host, '.');
    let ghost all = texts(parts@);
    if parts.len() != 4 {
        return false;
    }
    assert(all[0] == parts@[0]@);
    if !same(parts[0].as_str(), "127") {
        return false;
    }
    let mut i: usize = 0;
    while i < 4
        invariant
            i <= 4,
            parts@.len() == 4,
            all == texts(parts@),
            all == split(host@, '.'),
            lowered(host@) != lowered("localhost"@),
            host@ != "::1"@,
            forall|k: int| 0 <= k < i ==> parsed_up_to(#[trigger] all[k], 255) is Some,
        decreases 4 - i,
    {
        assert(all[i as int] == parts@[i as int]@);
        if parse_up_to(parts[i].as_str(), 255).is_none() {
            return false;
        }
        i += 1;
    }
    true
}

/// Whether a character can stand in the name of an HTTP header.
pub open spec fn header_char(c: char) -> bool {
    alphanumeric(c) || c == '!' || c == '#' || c == '$' || c == '%' || c == '&' || c == '\''
        || c == '*' || c == '+' || c == '-' || c == '.' || c == '^' || c == '_' || c == '`' || c
        == '|' || c == '~'
}

/// Whether a text can be the name of an HTTP header.
pub open spec fn header_name(s: Seq<char>) -> bool {
    s.len() > 0 && forall|i: int| 0 <= i < s.len() ==> header_char(#[trigger] s[i])
}

fn is_header_char(c: char) -> (r: bool)
    ensures
        r == header_char(c),
{
    is_alphanumeric(c) || c == '!' || c == '#' || c == '$' || c == '%' || c == '&' || c == '\''
        || c == '*' || c == '+' || c == '-' || c == '.' || c == '^' || c == '_' || c == '`' || c
        == '|' || c == '~'
}

/// Whether a text can be the name of an HTTP header.
pub fn is_header_name(name: &str) -> (r: bool)
    ensures
        r == header_name(name@),
{
    let x = chars_of(name);
    if x.len() == 0 {
        return false;
    }
    let mut i: usize = 0;
    while i < x.len()
        invariant
            i <= x@.len(),
            x@ == name@,
            forall|k: int| 0 <= k < i ==> header_char(#[trigger] x@[k]),
        decreases x.len() - i,
    {
        if !is_header_char(x[i]) {
            return false;
        }
        i += 1;
    }
    true
}

/// Whether a text can be the value of an HTTP header.
pub open spec fn header_value(s: Seq<char>) -> bool {
    !s.contains('\r') && !s.contains('\n') && !s.contains('\0')
}

/// Whether a text can be the value of an HTTP header.
pub fn is_header_value(value: &str) -> (r: bool)
    ensures
        r == header_value(value@),
{
    !contains_char(value, '\r') && !contains_char(value, '\n') && !contains_char(value, '\0')
}

// ---------------------------------------------------------------------------
// Laws
// ---------------------------------------------------------------------------

/// The name of a skill can be that of a plugin.
pub proof fn law_skill_names_are_plugin_names(s: Seq<char>)
    requires
        skill_name(s),
    ensures
        plugin_name(s),
{
    reveal_strlit("..");
    if occurs(s, ".."@) {
        let i = choose|i: int| crate::text::occurs_at(s, ".."@, i);
        assert(s.subrange(i, i + 2)[0] == '.');
        assert(s[i] == '.');
    }
}

/// A path that leads downwards only names no parent directory and is not
/// absolute.
pub proof fn law_safe_paths_stay_below(path: Seq<char>, i: int)
    requires
        safe_relative_path(path),
        0 <= i < split(path, '/').len(),
    ensures
        split(path, '/')[i] != ".."@,
        path[0] != '/',
{
    lemma_split_pieces(path, '/');
    if path[0] == '/' {
        lemma_leading_separator(path, '/');
    }
}

/// A text that begins with the separator has an empty first piece.
proof fn lemma_leading_separator(s: Seq<char>, c: char)
    requires
        s.len() > 0,
        s[0] == c,
    ensures
        split(s, c).len() >= 2,
        split(s, c)[0].len() == 0,
    decreases s.len(),
{
    reveal_with_fuel(split, 2);
    if s.len() == 1 {
        assert(s.drop_last() =~= Seq::empty());
    } else {
        lemma_leading_separator(s.drop_last(), c);
    }
}

/// A command that starts a server never leaves the package: it is a bare token,
/// or a path below the package in which no step leads upwards.
pub proof fn law_commands_stay_below(command: Seq<char>)
    requires
        mcp_command(command),
        command.contains('/'),
    ensures
        "./"@.is_prefix_of(command),
        !occurs(command, ".."@),
{
}

/// The part of a text before a character is all of it up to the first such character.
pub proof fn law_part_before_a_character(before: Seq<char>, rest: Seq<char>, c: char)
    requires
        !before.contains(c),
    ensures
        up_to(before + seq![c] + rest, c) == before,
        up_to(before, c) == before,
{
    let s = before + seq![c] + rest;
    lemma_find_char_from(s, c, 0);
    lemma_find_char_from(before, c, 0);
    assert(s[before.len() as int] == c);
    assert forall|j: int| 0 <= j < before.len() implies s[j] != c by {
        assert(before.contains(before[j]));
    }
    if let Some(i) = find_char_from(before, c, 0) {
        assert(before.contains(before[i as int]));
    }
    assert(s.take(before.len() as int) =~= before);
}

/// The host of an authority is what stands before the port, or between square brackets;
/// without either it is all of it, and an empty one is none.
pub proof fn law_hosts_are_taken(host: Seq<char>, port: Seq<char>)
    requires
        host.len() > 0,
        !host.contains(':') && !host.contains('[') && !host.contains(']'),
    ensures
        host_of(host) == Some(host),
        host_of(host + seq![':'] + port) == Some(host),
        host_of(seq!['['] + host + seq![']'] + port) == Some(host),
        host_of(Seq::empty()) is None,
{
    reveal_strlit("[");
    assert("["@ =~= seq!['[']);
    law_part_before_a_character(host, port, ':');
    law_part_before_a_character(host, port, ']');
    assert(host.contains(host[0]));
    let a = host + seq![':'] + port;
    assert(a[0] == host[0]);
    if "["@.is_prefix_of(host) {
        assert(host.subrange(0, 1)[0] == '[');
    }
    if "["@.is_prefix_of(a) {
        assert(a.subrange(0, 1)[0] == '[');
    }
    let b = seq!['['] + host + seq![']'] + port;
    assert(b.subrange(0, 1) =~= "["@);
    let inner = host + seq![']'] + port;
    assert(b.skip(1) =~= inner);
    lemma_find_char_from(inner, ']', 0);
    assert(inner[host.len() as int] == ']');
    lemma_find_char_from(Seq::empty(), ':', 0);
    let none = Seq::<char>::empty();
    assert(up_to(none, ':').len() == 0);
}

/// Short texts of lowercase letters and digits are names of plugins and of skills; longer
/// or empty ones, and those with any other character but dashes and dots, are not.
pub proof fn law_names_are_short_and_plain(s: Seq<char>, i: int)
    requires
        0 <= i < s.len(),
    ensures
        s.len() > 64 ==> !plugin_name(s) && !skill_name(s),
        !lowercase(s[i]) && !digit(s[i]) && s[i] != '-' && s[i] != '.' ==> !plugin_name(s),
        !lowercase(s[i]) && !digit(s[i]) && s[i] != '-' ==> !skill_name(s),
        !lowercase(s[0]) && !digit(s[0]) ==> !plugin_name(s) && !skill_name(s),
        !lowercase(s.last()) && !digit(s.last()) ==> !plugin_name(s) && !skill_name(s),
        !plugin_name(Seq::empty()) && !skill_name(Seq::empty()),
        s.len() <= 64 && (forall|k: int|
            0 <= k < s.len() ==> lowercase(#[trigger] s[k]) || digit(s[k])) ==> plugin_name(s)
            && skill_name(s),
{
    reveal_strlit("..");
    reveal_strlit("--");
    if forall|k: int| 0 <= k < s.len() ==> lowercase(#[trigger] s[k]) || digit(s[k]) {
        if occurs(s, ".."@) {
            let k = choose|k: int| crate::text::occurs_at(s, ".."@, k);
            assert(s.subrange(k, k + 2)[0] == '.');
            assert(s[k] == '.');
        }
        if occurs(s, "--"@) {
            let k = choose|k: int| crate::text::occurs_at(s, "--"@, k);
            assert(s.subrange(k, k + 2)[0] == '-');
            assert(s[k] == '-');
        }
        assert(lower_or_digit(s[0]));
        assert(lower_or_digit(s[s.len() - 1]));
    }
    assert(label(s, true) ==> lower_or_digit(s[i]) || s[i] == '-' || s[i] == '.');
    assert(label(s, false) ==> lower_or_digit(s[i]) || s[i] == '-');
}

} // verus!
