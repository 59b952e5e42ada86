//! JSON texts of strings.

use vstd::prelude::*;
use crate::text::opt_text;

verus! {

/// A hexadecimal digit.
pub open spec fn hex_digit(n: int) -> char {
    if n < 10 {
        ('0' as int + n) as char
    } else {
        ('a' as int + n - 10) as char
    }
}

/// A character in a JSON string.
pub open spec fn escaped(c: char) -> Seq<char> {
    if c == '"' {
        seq!['\\', '"']
    } else if c == '\\' {
        seq!['\\', '\\']
    } else if c == '\u{8}' {
        seq!['\\', 'b']
    } else if c == '\t' {
        seq!['\\', 't']
    } else if c == '\n' {
        seq!['\\', 'n']
    } else if c == '\u{c}' {
        seq!['\\', 'f']
    } else if c == '\r' {
        seq!['\\', 'r']
    } else if (c as int) < 0x20 {
        seq!['\\', 'u', '0', '0', hex_digit(c as int / 16), hex_digit(c as int % 16)]
    } else {
        seq![c]
    }
}

/// The characters of a text in a JSON string.
pub open spec fn all_escaped(s: Seq<char>) -> Seq<char>
    decreases s.len(),
{
    if s.len() == 0 {
        Seq::empty()
    } else {
        all_escaped(s.drop_last()) + escaped(s.last())
    }
}

/// The JSON string that a text is written as.
pub open spec fn quoted(s: Seq<char>) -> Seq<char> {
    seq!['"'] + all_escaped(s) + seq!['"']
}

/// The text that a JSON string holds, and nothing where the text is no JSON
/// string.
pub uninterp spec fn unquoted(s: Seq<char>) -> Option<Seq<char>>;

/// `serde_json::to_string` on a string slice. It never fails: the text stands
/// between quotation marks, with quotation marks, backslashes and control
/// characters escaped. `serde_json::from_str` gives the text back.
#[verifier::external_body]
pub(crate) fn json_string(value: &str) -> (r: String)
    ensures
        r@ == quoted(value@),
        unquoted(r@) == Some(value@),
{
    serde_json::to_string(value).unwrap_or_default()
}

/// `serde_json::from_str` to a `String`. Only that the result depends on the
/// text alone is claimed.
#[verifier::external_body]
pub(crate) fn parse_json_string(text: &str) -> (r: Option<String>)
    ensures
        opt_text(r) == unquoted(text@),
{
    serde_json::from_str::<String>(text).ok()
}

/// Characters are escaped one by one: quotation marks, backslashes and control characters
/// behind a backslash, and any other as it is.
pub proof fn law_characters_are_escaped_in_turn(
    a: Seq<char>,
    b: Seq<char>,
    one: char,
)
    ensures
        all_escaped(a + b) == all_escaped(a) + all_escaped(b),
        one == '"' ==> all_escaped(seq![one]) == seq!['\\', '"'],
        one == '\\' ==> all_escaped(seq![one]) == seq!['\\', '\\'],
        one == '\n' ==> all_escaped(seq![one]) == seq!['\\', 'n'],
        one == '\t' ==> all_escaped(seq![one]) == seq!['\\', 't'],
        one == '\r' ==> all_escaped(seq![one]) == seq!['\\', 'r'],
        (one as int) < 0x20 ==> all_escaped(seq![one]).len() >= 2 && all_escaped(seq![one])[0] == '\\',
        (one as int) >= 0x20 && one != '"' && one != '\\' ==> all_escaped(seq![one]) == seq![one],
    decreases b.len(),
{
    reveal_with_fuel(all_escaped, 2);
    assert(seq![one].drop_last() =~= Seq::empty());
    assert(all_escaped(seq![one].drop_last()) =~= Seq::empty());
    assert(all_escaped(seq![one]) =~= escaped(one));
    if b.len() == 0 {
        assert(a + b =~= a);
        assert(all_escaped(a) + all_escaped(b) =~= all_escaped(a));
    } else {
        law_characters_are_escaped_in_turn(a, b.drop_last(), one);
        assert((a + b).drop_last() =~= a + b.drop_last());
        assert((a + b).last() == b.last());
        assert(all_escaped(a + b) =~= all_escaped(a) + all_escaped(b));
    }
}


} // verus!
