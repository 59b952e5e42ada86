//! Warnings about deprecated options.

use vstd::prelude::*;
use crate::schema::FieldMeta;
use crate::table;
use crate::table::{keyed, lookup};
use crate::text::{
    cat3, chars_of, find_char, find_char_from, lemma_find_char_from, same, strip_prefix, text_of,
    texts,
};

verus! {

/// Whether a deprecated option has the given long name.
pub open spec fn deprecated_flag(options: Seq<FieldMeta>, flag: Seq<char>) -> bool {
    exists|i: int|
        0 <= i < options.len() && (#[trigger] options[i]).deprecated && options[i].cli_name@ == flag
}

/// The long name of the deprecated option that a short flag stands for: of the
/// last one where several have the same.
pub open spec fn deprecated_short(
    options: Seq<FieldMeta>,
    aliases: Seq<(Seq<char>, char)>,
    c: char,
) -> Option<Seq<char>>
    decreases options.len(),
{
    if options.len() == 0 {
        None
    } else if options.last().deprecated && lookup(aliases, options.last().name@) == Some(c) {
        Some(options.last().cli_name@)
    } else {
        deprecated_short(options.drop_last(), aliases, c)
    }
}

/// The warning about an option.
pub open spec fn warning(name: Seq<char>) -> Seq<char> {
    "Warning: --"@ + name + " is deprecated"@
}

/// The part of a text before the first `=`.
pub open spec fn before_equals(s: Seq<char>) -> Seq<char> {
    match find_char_from(s, '=', 0) {
        Some(i) => s.take(i as int),
        None => s,
    }
}

/// The option that a long flag names: without `no-` where only that is
/// deprecated.
pub open spec fn flag_name(options: Seq<FieldMeta>, flag: Seq<char>) -> Seq<char> {
    if !deprecated_flag(options, flag) && "no-"@.is_prefix_of(flag) {
        flag.skip("no-"@.len() as int)
    } else {
        flag
    }
}

/// The warnings about a group of short flags.
pub open spec fn short_warnings(
    options: Seq<FieldMeta>,
    aliases: Seq<(Seq<char>, char)>,
    shorts: Seq<char>,
) -> Seq<Seq<char>>
    decreases shorts.len(),
{
    if shorts.len() == 0 {
        Seq::empty()
    } else {
        let head = short_warnings(options, aliases, shorts.drop_last());
        match deprecated_short(options, aliases, shorts.last()) {
            Some(name) => head.push(warning(name)),
            None => head,
        }
    }
}

/// The warnings about one word of the command line.
pub open spec fn word_warnings(
    options: Seq<FieldMeta>,
    aliases: Seq<(Seq<char>, char)>,
    word: Seq<char>,
) -> Seq<Seq<char>> {
    if "--"@.is_prefix_of(word) {
        let name = flag_name(options, before_equals(word.skip("--"@.len() as int)));
        if deprecated_flag(options, name) {
            seq![warning(name)]
        } else {
            Seq::empty()
        }
    } else if "-"@.is_prefix_of(word) {
        short_warnings(options, aliases, word.skip("-"@.len() as int))
    } else {
        Seq::empty()
    }
}

/// The warnings about the words of the command line, in their order.
pub open spec fn all_warnings(
    options: Seq<FieldMeta>,
    aliases: Seq<(Seq<char>, char)>,
    words: Seq<Seq<char>>,
) -> Seq<Seq<char>>
    decreases words.len(),
{
    if words.len() == 0 {
        Seq::empty()
    } else {
        all_warnings(options, aliases, words.drop_last()) + word_warnings(
            options,
            aliases,
            words.last(),
        )
    }
}

/// Whether a deprecated option has the given long name.
fn is_deprecated(options: &Vec<FieldMeta>, flag: &str) -> (r: bool)
    ensures
        r == deprecated_flag(options@, flag@),
{
    let mut i: usize = 0;
    while i < options.len()
        invariant
            i <= options@.len(),
            forall|k: int|
                0 <= k < i ==> !((#[trigger] options@[k]).deprecated && options@[k].cli_name@
                    == flag@),
        decreases options.len() - i,
    {
        if options[i].deprecated && same(options[i].cli_name.as_str(), flag) {
            return true;
        }
        i += 1;
    }
    false
}

/// Finds the deprecated option that a short flag stands for.
fn short_option<'a>(options: &'a Vec<FieldMeta>, aliases: &Vec<(String, char)>, c: char) -> (r:
    Option<&'a FieldMeta>)
    ensures
        match r {
            Some(field) => deprecated_short(options@, keyed(aliases@), c) == Some(field.cli_name@),
            None => deprecated_short(options@, keyed(aliases@), c) is None,
        },
{
    let ghost table = keyed(aliases@);
    let mut i: usize = options.len();
    assert(options@.take(i as int) =~= options@);
    while i > 0
        invariant
            i <= options@.len(),
            table == keyed(aliases@),
            deprecated_short(options@, table, c) == deprecated_short(
                options@.take(i as int),
                table,
                c,
            ),
        decreases i,
    {
        assert(options@.take(i as int).drop_last() =~= options@.take(i - 1));
        assert(options@.take(i as int).last() == options@[i - 1]);
        if options[i - 1].deprecated {
            if let Some(alias) = table::get(aliases, options[i - 1].name.as_str()) {
                if *alias == c {
                    return Some(&options[i - 1]);
                }
            }
        }
        i -= 1;
    }
    None
}

/// The part of a text before the first `=`.
fn up_to_equals(s: &str) -> (r: String)
    ensures
        r@ == before_equals(s@),
{
    let x = chars_of(s);
    let end: usize = match find_char(&x, '=', 0) {
        Some(i) => i,
        None => x.len(),
    };
    proof {
        lemma_find_char_from(s@, '=', 0);
    }
    assert(x@.subrange(0, end as int) =~= before_equals(s@));
    text_of(&x, 0, end)
}

/// Adds the warnings about a group of short flags.
fn push_short_warnings(
    out: &mut Vec<String>,
    options: &Vec<FieldMeta>,
    aliases: &Vec<(String, char)>,
    shorts: &str,
)
    ensures
        texts(final(out)@) == texts(old(out)@) + short_warnings(
            options@,
            keyed(aliases@),
            shorts@,
        ),
{
    let x = chars_of(shorts);
    let ghost start = texts(out@);
    let ghost table = keyed(aliases@);
    let mut i: usize = 0;
    assert(texts(out@) =~= start + short_warnings(options@, table, x@.take(0)));
    while i < x.len()
        invariant
            i <= x@.len(),
            table == keyed(aliases@),
            texts(out@) == start + short_warnings(options@, table, x@.take(i as int)),
        decreases x.len() - i,
    {
        let ghost was = texts(out@);
        let ghost head = short_warnings(options@, table, x@.take(i as int));
        assert(x@.take(i + 1).drop_last() =~= x@.take(i as int));
        if let Some(field) = short_option(options, aliases, x[i]) {
            let text = cat3("Warning: --", field.cli_name.as_str(), " is deprecated");
            let ghost next = text@;
            out.push(text);
            assert(texts(out@) =~= was.push(next));
            assert(start + head.push(next) =~= (start + head).push(next));
        }
        i += 1;
    }
    assert(x@.take(x@.len() as int) =~= x@);
}

/// Adds the warnings about one word of the command line.
fn push_word_warnings(
    out: &mut Vec<String>,
    options: &Vec<FieldMeta>,
    aliases: &Vec<(String, char)>,
    word: &str,
)
    ensures
        texts(final(out)@) == texts(old(out)@) + word_warnings(options@, keyed(aliases@), word@),
{
    let ghost start = texts(out@);
    if let Some(stripped) = strip_prefix(word, "--") {
        let flag = up_to_equals(stripped.as_str());
        let mut name = flag.clone();
        if !is_deprecated(options, flag.as_str()) {
            if let Some(positive) = strip_prefix(flag.as_str(), "no-") {
                name = positive;
            }
        }
        assert(name@ == flag_name(options@, flag@));
        if is_deprecated(options, name.as_str()) {
            let text = cat3("Warning: --", name.as_str(), " is deprecated");
            let ghost next = text@;
            out.push(text);
            assert(texts(out@) =~= start + seq![next]);
        } else {
            assert(start + Seq::<Seq<char>>::empty() =~= start);
        }
    } else if let Some(shorts) = strip_prefix(word, "-") {
        push_short_warnings(out, options, aliases, shorts.as_str());
    } else {
        assert(start + Seq::<Seq<char>>::empty() =~= start);
    }
}

/// Scans command tokens for supplied deprecated options and returns the
/// `Warning: --<cli-name> is deprecated` lines. Recognizes long flags, their
/// `--no-` form, and short aliases.
pub fn deprecation_warnings(
    rest: &Vec<String>,
    options_fields: &Vec<FieldMeta>,
    aliases: &Vec<(String, char)>,
) -> (r: Vec<String>)
    ensures
        texts(r@) == all_warnings(options_fields@, keyed(aliases@), texts(rest@)),
{
    let ghost words = texts(rest@);
    let ghost table = keyed(aliases@);
    let mut out: Vec<String> = Vec::new();
    let mut i: usize = 0;
    assert(texts(out@) =~= all_warnings(options_fields@, table, words.take(0)));
    while i < rest.len()
        invariant
            i <= rest@.len(),
            words == texts(rest@),
            table == keyed(aliases@),
            texts(out@) == all_warnings(options_fields@, table, words.take(i as int)),
        decreases rest.len() - i,
    {
        assert(words.take(i + 1).drop_last() =~= words.take(i as int));
        assert(words.take(i + 1).last() == rest@[i as int]@);
        push_word_warnings(&mut out, options_fields, aliases, rest[i].as_str());
        i += 1;
    }
    assert(words.take(words.len() as int) =~= words);
    out
}

// ---------------------------------------------------------------------------
// Laws
// ---------------------------------------------------------------------------

/// Without deprecated options there are no warnings.
pub proof fn law_no_deprecated_no_warnings(
    options: Seq<FieldMeta>,
    aliases: Seq<(Seq<char>, char)>,
    words: Seq<Seq<char>>,
)
    requires
        forall|i: int| 0 <= i < options.len() ==> !(#[trigger] options[i]).deprecated,
    ensures
        all_warnings(options, aliases, words) == Seq::<Seq<char>>::empty(),
    decreases words.len(),
{
    if words.len() > 0 {
        law_no_deprecated_no_warnings(options, aliases, words.drop_last());
        let word = words.last();
        if "--"@.is_prefix_of(word) {
        } else if "-"@.is_prefix_of(word) {
            lemma_no_shorts(options, aliases, word.skip("-"@.len() as int));
        }
        assert(word_warnings(options, aliases, word) =~= Seq::empty());
    }
}

proof fn lemma_no_short(options: Seq<FieldMeta>, aliases: Seq<(Seq<char>, char)>, c: char)
    requires
        forall|i: int| 0 <= i < options.len() ==> !(#[trigger] options[i]).deprecated,
    ensures
        deprecated_short(options, aliases, c) is None,
    decreases options.len(),
{
    if options.len() > 0 {
        assert forall|i: int| 0 <= i < options.drop_last().len() implies !(
        #[trigger] options.drop_last()[i]).deprecated by {
            assert(options[i] == options.drop_last()[i]);
        }
        assert(!options[options.len() - 1].deprecated);
        lemma_no_short(options.drop_last(), aliases, c);
    }
}

proof fn lemma_no_shorts(
    options: Seq<FieldMeta>,
    aliases: Seq<(Seq<char>, char)>,
    shorts: Seq<char>,
)
    requires
        forall|i: int| 0 <= i < options.len() ==> !(#[trigger] options[i]).deprecated,
    ensures
        short_warnings(options, aliases, shorts) == Seq::<Seq<char>>::empty(),
    decreases shorts.len(),
{
    if shorts.len() > 0 {
        lemma_no_shorts(options, aliases, shorts.drop_last());
        lemma_no_short(options, aliases, shorts.last());
    }
}

/// Words are looked at one by one: of two lists the warnings on the first come first.
pub proof fn law_words_are_warned_of_in_turn(
    options: Seq<FieldMeta>,
    aliases: Seq<(Seq<char>, char)>,
    a: Seq<Seq<char>>,
    b: Seq<Seq<char>>,
    word: Seq<char>,
)
    ensures
        all_warnings(options, aliases, a + b) == all_warnings(options, aliases, a) + all_warnings(
            options,
            aliases,
            b,
        ),
        all_warnings(options, aliases, seq![word]) == word_warnings(options, aliases, word),
    decreases b.len(),
{
    reveal_with_fuel(all_warnings, 2);
    assert(seq![word].drop_last() =~= Seq::empty());
    assert(all_warnings(options, aliases, seq![word].drop_last()) =~= Seq::empty());
    assert(all_warnings(options, aliases, seq![word]) =~= word_warnings(options, aliases, word));
    if b.len() == 0 {
        assert(a + b =~= a);
        assert(all_warnings(options, aliases, a) + all_warnings(options, aliases, b)
            =~= all_warnings(options, aliases, a));
    } else {
        law_words_are_warned_of_in_turn(options, aliases, a, b.drop_last(), word);
        assert((a + b).drop_last() =~= a + b.drop_last());
        assert((a + b).last() == b.last());
        assert(all_warnings(options, aliases, a + b) =~= all_warnings(options, aliases, a)
            + all_warnings(options, aliases, b));
    }
}

/// A deprecated option is warned of under its name, whether it stands alone or with a
/// value behind an equals sign; a word that is no option is not.
pub proof fn law_deprecated_options_are_warned_of(
    options: Seq<FieldMeta>,
    aliases: Seq<(Seq<char>, char)>,
    i: int,
    value: Seq<char>,
    word: Seq<char>,
)
    requires
        0 <= i < options.len(),
        options[i].deprecated,
        !options[i].cli_name@.contains('='),
    ensures
        word_warnings(options, aliases, "--"@ + options[i].cli_name@) == seq![
            "Warning: --"@ + options[i].cli_name@ + " is deprecated"@,
        ],
        word_warnings(options, aliases, "--"@ + options[i].cli_name@ + "="@ + value) == seq![
            "Warning: --"@ + options[i].cli_name@ + " is deprecated"@,
        ],
        !"-"@.is_prefix_of(word) && !"--"@.is_prefix_of(word) ==> word_warnings(
            options,
            aliases,
            word,
        ).len() == 0,
{
    let name = options[i].cli_name@;
    let plain = "--"@ + name;
    let valued = "--"@ + name + "="@ + value;
    let n = "--"@.len() as int;
    reveal_strlit("=");
    assert(plain.subrange(0, n) =~= "--"@);
    assert(valued.subrange(0, n) =~= "--"@);
    assert(plain.skip(n) =~= name);
    let tail = valued.skip(n);
    assert(tail =~= name + "="@ + value);
    crate::text::lemma_find_char_from(name, '=', 0);
    crate::text::lemma_find_char_from(tail, '=', 0);
    assert forall|j: int| 0 <= j < name.len() implies tail[j] != '=' by {
        assert(tail[j] == name[j]);
        assert(name.contains(name[j]));
    }
    assert(tail[name.len() as int] == '=');
    if find_char_from(name, '=', 0) is Some {
        let k = find_char_from(name, '=', 0)->0;
        assert(name.contains(name[k as int]));
    }
    assert(tail.take(name.len() as int) =~= name);
    assert(deprecated_flag(options, name));
}

/// Short flags are looked at one by one, and each that stands for a deprecated option is
/// warned of under the long name of that.
pub proof fn law_short_flags_are_warned_of(
    options: Seq<FieldMeta>,
    aliases: Seq<(Seq<char>, char)>,
    a: Seq<char>,
    b: Seq<char>,
    one: char,
)
    ensures
        short_warnings(options, aliases, a + b) == short_warnings(options, aliases, a) + short_warnings(options, aliases, b),
        deprecated_short(options, aliases, one) matches Some(name) ==> short_warnings(options, aliases, seq![one]) == seq![
            "Warning: --"@ + name + " is deprecated"@,
        ],
        deprecated_short(options, aliases, one) is None ==> short_warnings(options, aliases, seq![one]).len() == 0,
    decreases b.len(),
{
    reveal_with_fuel(short_warnings, 2);
    assert(seq![one].drop_last() =~= Seq::empty());
    assert(short_warnings(options, aliases, seq![one].drop_last()) =~= Seq::empty());
    if b.len() == 0 {
        assert(a + b =~= a);
        assert(short_warnings(options, aliases, a) + short_warnings(options, aliases, b) =~= short_warnings(options, aliases, a));
    } else {
        law_short_flags_are_warned_of(options, aliases, a, b.drop_last(), one);
        assert((a + b).drop_last() =~= a + b.drop_last());
        assert((a + b).last() == b.last());
        assert(short_warnings(options, aliases, a + b) =~= short_warnings(options, aliases, a) + short_warnings(options, aliases, b));
    }
}

/// A short flag stands for a deprecated option exactly where one has it as its short
/// form.
pub proof fn law_short_flags_stand_for_options(
    options: Seq<FieldMeta>,
    aliases: Seq<(Seq<char>, char)>,
    c: char,
    i: int,
)
    ensures
        0 <= i < options.len() && options[i].deprecated && lookup(aliases, options[i].name@)
            == Some(c) ==> deprecated_short(options, aliases, c) is Some,
        deprecated_short(options, aliases, c) matches Some(name) ==> exists|k: int|
            0 <= k < options.len() && (#[trigger] options[k]).deprecated && lookup(
                aliases,
                options[k].name@,
            ) == Some(c) && options[k].cli_name@ == name,
    decreases options.len(),
{
    if options.len() > 0 {
        let head = options.drop_last();
        law_short_flags_stand_for_options(head, aliases, c, i);
        if options.last().deprecated && lookup(aliases, options.last().name@) == Some(c) {
            assert(options[options.len() - 1] == options.last());
        } else {
            if let Some(name) = deprecated_short(head, aliases, c) {
                let k = choose|k: int|
                    0 <= k < head.len() && (#[trigger] head[k]).deprecated && lookup(
                        aliases,
                        head[k].name@,
                    ) == Some(c) && head[k].cli_name@ == name;
                assert(options[k] == head[k]);
            }
            if 0 <= i < options.len() - 1 {
                assert(head[i] == options[i]);
            }
        }
    }
}

/// A word behind one dash is a group of short flags.
pub proof fn law_dashed_words_are_short_flags(
    options: Seq<FieldMeta>,
    aliases: Seq<(Seq<char>, char)>,
    shorts: Seq<char>,
)
    requires
        shorts.len() == 0 || shorts[0] != '-',
    ensures
        word_warnings(options, aliases, "-"@ + shorts) == short_warnings(options, aliases, shorts),
{
    reveal_strlit("-");
    reveal_strlit("--");
    let word = "-"@ + shorts;
    assert(word.subrange(0, 1) =~= "-"@);
    assert(word.skip(1) =~= shorts);
    if "--"@.is_prefix_of(word) {
        assert(word.subrange(0, 2)[1] == '-');
        assert(word[1] == shorts[0]);
    }
}

} // verus!
