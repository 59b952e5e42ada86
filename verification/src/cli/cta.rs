//! Follow-up suggestions and errors as the command line shows them.

use vstd::prelude::*;
use vstd::utf8::encode_utf8;
use crate::output::{CtaBlock, CtaEntry, Suggestion};
use crate::text::{cat, cat3, copy_opt, join, join_texts, opt_text, same, starts_with, texts};
use crate::value::{
    lemma_array_view, lemma_collected_push, lemma_object_view, new_object, object, opt_string, put,
    string_value, values, with_some, Json, Value,
};

verus! {

/// A formatted CTA block for output.
#[derive(Debug, Clone)]
pub struct FormattedCtaBlock {
    /// Text above the suggestions.
    pub description: String,
    /// The suggestions.
    pub commands: Vec<FormattedCta>,
}

/// A single formatted CTA entry.
#[derive(Debug, Clone)]
pub struct FormattedCta {
    /// The whole command.
    pub command: String,
    /// What the command is for.
    pub description: Option<String>,
}

impl View for FormattedCta {
    type V = (Seq<char>, Option<Seq<char>>);

    open spec fn view(&self) -> (Seq<char>, Option<Seq<char>>) {
        (self.command@, opt_text(self.description))
    }
}

/// What formatted suggestions mean: command and description of each.
pub open spec fn suggestions(v: Seq<FormattedCta>) -> Seq<(Seq<char>, Option<Seq<char>>)> {
    v.map_values(|c: FormattedCta| c@)
}

impl View for FormattedCtaBlock {
    type V = (Seq<char>, Seq<(Seq<char>, Option<Seq<char>>)>);

    open spec fn view(&self) -> (Seq<char>, Seq<(Seq<char>, Option<Seq<char>>)>) {
        (self.description@, suggestions(self.commands@))
    }
}

/// What an optional block means.
pub open spec fn opt_block(b: Option<FormattedCtaBlock>) -> Option<
    (Seq<char>, Seq<(Seq<char>, Option<Seq<char>>)>),
> {
    match b {
        Some(x) => Some(x@),
        None => None,
    }
}

/// A command under the binary `name`: the name is put before it unless it
/// already begins with it as a word.
pub open spec fn under_name(name: Seq<char>, command: Seq<char>) -> Seq<char> {
    if command == name || (name + " "@).is_prefix_of(command) {
        command
    } else {
        name + " "@ + command
    }
}

/// A suggestion as it is shown under the binary `name`.
pub open spec fn shown_suggestion(name: Seq<char>, s: Suggestion) -> (Seq<char>, Option<Seq<char>>) {
    match s {
        Suggestion::Simple(command) => (name + " "@ + command, None),
        Suggestion::Detailed(command, description) => (under_name(name, command), description),
    }
}

/// The suggestions of a block as they are shown.
pub open spec fn shown_block(name: Seq<char>, block: CtaBlock) -> (
    Seq<char>,
    Seq<(Seq<char>, Option<Seq<char>>)>,
) {
    (
        match block.description {
            Some(d) => d@,
            None => "Suggested commands:"@,
        },
        block.commands@.map_values(|e: CtaEntry| shown_suggestion(name, e@)),
    )
}

/// Puts the binary name before a command where it is missing.
pub fn command_under_name(name: &str, command: &str) -> (r: String)
    ensures
        r@ == under_name(name@, command@),
{
    let lead = cat(name, " ");
    if same(command, name) || starts_with(command, lead.as_str()) {
        command.to_string()
    } else {
        cat3(name, " ", command)
    }
}

/// Formats a CTA block from the command result into the output shape.
pub fn format_cta_block(name: &str, block: Option<&CtaBlock>) -> (r: Option<FormattedCtaBlock>)
    ensures
        opt_block(r) == match block {
            Some(b) => if b.commands@.len() == 0 {
                None
            } else {
                Some(shown_block(name@, *b))
            },
            None => None,
        },
{
    let block = match block {
        Some(block) => block,
        None => {
            return None;
        },
    };
    if block.commands.len() == 0 {
        return None;
    }
    let ghost all = block.commands@.map_values(|e: CtaEntry| shown_suggestion(name@, e@));
    let mut commands: Vec<FormattedCta> = Vec::new();
    let mut i: usize = 0;
    while i < block.commands.len()
        invariant
            i <= block.commands@.len(),
            all == block.commands@.map_values(|e: CtaEntry| shown_suggestion(name@, e@)),
            suggestions(commands@) == all.take(i as int),
        decreases block.commands.len() - i,
    {
        let ghost was = suggestions(commands@);
        let next = match &block.commands[i] {
            CtaEntry::Simple(command) => FormattedCta {
                command: cat3(name, " ", command.as_str()),
                description: None,
            },
            CtaEntry::Detailed { command, description } => FormattedCta {
                command: command_under_name(name, command.as_str()),
                description: copy_opt(description),
            },
        };
        assert(next@ == all[i as int]);
        commands.push(next);
        assert(suggestions(commands@) =~= was.push(all[i as int]));
        assert(all.take(i + 1) =~= all.take(i as int).push(all[i as int]));
        i += 1;
    }
    assert(all.take(all.len() as int) =~= all);
    let description = match &block.description {
        Some(d) => d.clone(),
        None => "Suggested commands:".to_string(),
    };
    Some(FormattedCtaBlock { description, commands })
}

/// Two blocks as one: the suggestions of the second behind those of the first,
/// under the text of the first.
pub open spec fn merged_block(
    base: Option<(Seq<char>, Seq<(Seq<char>, Option<Seq<char>>)>)>,
    extra: Option<(Seq<char>, Seq<(Seq<char>, Option<Seq<char>>)>)>,
) -> Option<(Seq<char>, Seq<(Seq<char>, Option<Seq<char>>)>)> {
    match (base, extra) {
        (Some((text, first)), Some((_, second))) => Some((text, first + second)),
        (Some(b), None) => Some(b),
        (None, e) => e,
    }
}

/// Appends copies of suggestions.
fn append_suggestions(to: &mut Vec<FormattedCta>, more: &Vec<FormattedCta>)
    ensures
        suggestions(final(to)@) == suggestions(old(to)@) + suggestions(more@),
{
    let ghost start = suggestions(to@);
    let mut i: usize = 0;
    assert(start + suggestions(more@.take(0)) =~= start);
    while i < more.len()
        invariant
            i <= more@.len(),
            suggestions(to@) == start + suggestions(more@.take(i as int)),
        decreases more.len() - i,
    {
        let ghost was = suggestions(to@);
        let ghost next = more@[i as int]@;
        to.push(
            FormattedCta {
                command: more[i].command.clone(),
                description: copy_opt(&more[i].description),
            },
        );
        assert(suggestions(to@) =~= was.push(next));
        assert(suggestions(more@.take(i + 1)) =~= suggestions(more@.take(i as int)).push(next));
        assert(suggestions(to@) =~= start + suggestions(more@.take(i + 1)));
        i += 1;
    }
    assert(more@.take(more@.len() as int) =~= more@);
}

/// Merges an optional secondary CTA block (e.g. the skills-staleness CTA) into
/// a base CTA. When both exist, the secondary block's commands are appended to
/// the base; otherwise whichever exists is returned.
pub fn merge_cta(base: Option<FormattedCtaBlock>, extra: Option<&FormattedCtaBlock>) -> (r: Option<
    FormattedCtaBlock,
>)
    ensures
        opt_block(r) == merged_block(
            opt_block(base),
            match extra {
                Some(e) => Some(e@),
                None => None,
            },
        ),
{
    match (base, extra) {
        (Some(b), Some(e)) => {
            let mut b = b;
            append_suggestions(&mut b.commands, &e.commands);
            Some(b)
        },
        (Some(b), None) => Some(b),
        (None, Some(e)) => {
            let mut commands: Vec<FormattedCta> = Vec::new();
            append_suggestions(&mut commands, &e.commands);
            assert(suggestions(commands@) =~= suggestions(e.commands@));
            Some(FormattedCtaBlock { description: e.description.clone(), commands })
        },
        (None, None) => None,
    }
}

/// The length of a text in bytes.
pub open spec fn bytes(s: Seq<char>) -> usize {
    encode_utf8(s).len() as usize
}

/// That many spaces.
pub open spec fn spaces(n: nat) -> Seq<char> {
    Seq::new(n, |i: int| ' ')
}

/// The longest command in bytes.
pub open spec fn widest(commands: Seq<(Seq<char>, Option<Seq<char>>)>) -> usize
    decreases commands.len(),
{
    if commands.len() == 0 {
        0
    } else {
        let head = widest(commands.drop_last());
        let last = bytes(commands.last().0);
        if last > head {
            last
        } else {
            head
        }
    }
}

/// One suggestion as a line, with descriptions aligned behind the commands.
pub open spec fn suggestion_line(s: (Seq<char>, Option<Seq<char>>), width: usize) -> Seq<char> {
    "  "@ + s.0 + match s.1 {
        Some(d) => "  "@ + spaces((width - bytes(s.0)) as nat) + "# "@ + d,
        None => Seq::empty(),
    }
}

/// The lines of a block: an empty one, its text, and one for each suggestion.
pub open spec fn block_lines(
    block: (Seq<char>, Seq<(Seq<char>, Option<Seq<char>>)>),
) -> Seq<Seq<char>> {
    seq![Seq::empty(), block.0] + block.1.map_values(
        |s: (Seq<char>, Option<Seq<char>>)| suggestion_line(s, widest(block.1)),
    )
}

/// A text of that many spaces.
pub fn spaces_text(n: usize) -> (r: String)
    ensures
        r@ == spaces(n as nat),
{
    let mut out = String::new();
    let mut i: usize = 0;
    assert(out@ =~= spaces(0));
    while i < n
        invariant
            i <= n,
            out@ == spaces(i as nat),
        decreases n - i,
    {
        out.push(' ');
        assert(out@ =~= spaces((i + 1) as nat));
        i += 1;
    }
    out
}

/// No command is longer than the longest one.
pub proof fn lemma_widest(commands: Seq<(Seq<char>, Option<Seq<char>>)>, i: int)
    requires
        0 <= i < commands.len(),
    ensures
        bytes(commands[i].0) <= widest(commands),
    decreases commands.len(),
{
    if i < commands.len() - 1 {
        lemma_widest(commands.drop_last(), i);
        assert(commands.drop_last()[i] == commands[i]);
    }
}

/// Formats a CTA block for human-readable TTY output.
pub fn format_human_cta(cta: &FormattedCtaBlock) -> (r: String)
    ensures
        r@ == join(block_lines(cta@), "\n"@),
{
    let ghost all = suggestions(cta.commands@);
    let mut width: usize = 0;
    let mut i: usize = 0;
    while i < cta.commands.len()
        invariant
            i <= cta.commands@.len(),
            all == suggestions(cta.commands@),
            width == widest(all.take(i as int)),
        decreases cta.commands.len() - i,
    {
        assert(all.take(i + 1).drop_last() =~= all.take(i as int));
        assert(all[i as int].0 == cta.commands@[i as int].command@);
        let len: usize = cta.commands[i].command.as_str().len();
        if len > width {
            width = len;
        }
        i += 1;
    }
    assert(all.take(all.len() as int) =~= all);
    let ghost lines_all = block_lines(cta@);
    let mut lines: Vec<String> = Vec::new();
    lines.push(String::new());
    lines.push(cta.description.clone());
    assert(texts(lines@) =~= lines_all.take(2));
    let mut k: usize = 0;
    while k < cta.commands.len()
        invariant
            k <= cta.commands.len(),
            all == suggestions(cta.commands@),
            width == widest(all),
            lines_all == block_lines(cta@),
            lines_all.len() == all.len() + 2,
            texts(lines@) == lines_all.take(k + 2),
        decreases cta.commands.len() - k,
    {
        let command = &cta.commands[k];
        assert(all[k as int] == command@);
        let ghost line = lines_all[k + 2];
        assert(line == suggestion_line(all[k as int], width));
        proof {
            lemma_widest(all, k as int);
        }
        let mut out = cat("  ", command.command.as_str());
        if let Some(d) = &command.description {
            let mut tail = cat(
                "  ",
                spaces_text(width - command.command.as_str().len()).as_str(),
            );
            tail.append("# ");
            tail.append(d.as_str());
            out.append(tail.as_str());
        }
        assert(out@ =~= line);
        let ghost was = texts(lines@);
        lines.push(out);
        assert(texts(lines@) =~= was.push(line));
        assert(lines_all.take(k + 3) =~= lines_all.take(k + 2).push(line));
        k += 1;
    }
    assert(lines_all.take(lines_all.len() as int) =~= lines_all);
    join_texts(&lines, "\n")
}

/// An error as a human sees it: with its code unless the code says nothing.
pub open spec fn human_error(code: Seq<char>, message: Seq<char>) -> Seq<char> {
    if code == "UNKNOWN"@ || code == "COMMAND_NOT_FOUND"@ {
        "Error: "@ + message
    } else {
        "Error ("@ + code + "): "@ + message
    }
}

/// Formats an error for human-readable TTY output.
pub fn format_human_error(code: &str, message: &str) -> (r: String)
    ensures
        r@ == human_error(code@, message@),
{
    if same(code, "UNKNOWN") || same(code, "COMMAND_NOT_FOUND") {
        cat("Error: ", message)
    } else {
        let mut out = cat3("Error (", code, "): ");
        out.append(message);
        out
    }
}

/// A suggestion as a value.
pub open spec fn suggestion_json(s: (Seq<char>, Option<Seq<char>>)) -> Json {
    object(
        with_some(
            Seq::empty().push(("command"@, Json::String(s.0))),
            "description"@,
            opt_string(s.1),
        ),
    )
}

/// A block of suggestions as a value.
pub open spec fn block_json(block: (Seq<char>, Seq<(Seq<char>, Option<Seq<char>>)>)) -> Json {
    object(
        Seq::empty().push(("description"@, Json::String(block.0))).push(
            (
                "commands"@,
                Json::Array(
                    block.1.map_values(|s: (Seq<char>, Option<Seq<char>>)| suggestion_json(s)),
                ),
            ),
        ),
    )
}

/// Makes a value of a block of suggestions.
pub fn cta_value(cta: &FormattedCtaBlock) -> (r: Value)
    ensures
        r@ == block_json(cta@),
{
    broadcast use {lemma_array_view, lemma_collected_push, lemma_object_view};

    let ghost all = suggestions(cta.commands@).map_values(
        |s: (Seq<char>, Option<Seq<char>>)| suggestion_json(s),
    );
    let mut out: Vec<Value> = Vec::new();
    let mut i: usize = 0;
    while i < cta.commands.len()
        invariant
            i <= cta.commands@.len(),
            all == suggestions(cta.commands@).map_values(
                |s: (Seq<char>, Option<Seq<char>>)| suggestion_json(s),
            ),
            values(out@) == all.take(i as int),
        decreases cta.commands.len() - i,
    {
        broadcast use {lemma_collected_push, lemma_object_view};

        let ghost was = values(out@);
        let mut fields = new_object();
        put(&mut fields, "command", string_value(cta.commands[i].command.as_str()));
        if let Some(text) = &cta.commands[i].description {
            put(&mut fields, "description", string_value(text.as_str()));
        }
        let value = Value::Object(fields);
        assert(value@ == all[i as int]);
        out.push(value);
        assert(values(out@) =~= was.push(all[i as int]));
        assert(all.take(i + 1) =~= all.take(i as int).push(all[i as int]));
        i += 1;
    }
    assert(all.take(all.len() as int) =~= all);
    let mut fields = new_object();
    put(&mut fields, "description", string_value(cta.description.as_str()));
    put(&mut fields, "commands", Value::Array(out));
    Value::Object(fields)
}

// ---------------------------------------------------------------------------
// Laws
// ---------------------------------------------------------------------------

/// A shown command begins with the binary name.
pub proof fn law_shown_commands_begin_with_name(name: Seq<char>, s: Suggestion)
    ensures
        name.is_prefix_of(shown_suggestion(name, s).0),
{
    let shown = shown_suggestion(name, s).0;
    match s {
        Suggestion::Simple(command) => {
            assert(shown.take(name.len() as int) =~= name);
        },
        Suggestion::Detailed(command, _) => {
            if command == name {
                assert(shown.take(name.len() as int) =~= name);
            } else if (name + " "@).is_prefix_of(command) {
                assert((name + " "@).take(name.len() as int) =~= name);
                assert(command.take((name + " "@).len() as int).take(name.len() as int)
                    =~= command.take(name.len() as int));
            } else {
                assert(shown.take(name.len() as int) =~= name);
            }
        },
    }
}

/// Showing a shown command again changes nothing.
pub proof fn law_naming_is_idempotent(name: Seq<char>, command: Seq<char>)
    ensures
        under_name(name, under_name(name, command)) == under_name(name, command),
{
    if !(command == name || (name + " "@).is_prefix_of(command)) {
        assert((name + " "@ + command).take((name + " "@).len() as int) =~= name + " "@);
    }
}

/// Merging is associative, and the block that is not there is neutral.
pub proof fn law_merge_is_a_monoid(
    a: Option<(Seq<char>, Seq<(Seq<char>, Option<Seq<char>>)>)>,
    b: Option<(Seq<char>, Seq<(Seq<char>, Option<Seq<char>>)>)>,
    c: Option<(Seq<char>, Seq<(Seq<char>, Option<Seq<char>>)>)>,
)
    ensures
        merged_block(merged_block(a, b), c) == merged_block(a, merged_block(b, c)),
        merged_block(a, None) == a,
        merged_block(None, a) == a,
{
    if let (Some((_, x)), Some((_, y)), Some((_, z))) = (a, b, c) {
        assert(x + y + z =~= x + (y + z));
    }
}

/// The keys of suggestions differ.
proof fn lemma_cta_keys()
    ensures
        "description"@ != "commands"@,
        "description"@ != "command"@,
        "commands"@ != "command"@,
{
    reveal_strlit("description");
    reveal_strlit("commands");
    reveal_strlit("command");
    assert("description"@.len() == 11);
    assert("commands"@.len() == 8);
    assert("command"@.len() == 7);
}

/// Suggestions as a value: the text above them, and every suggestion in its turn with its
/// command, and its description exactly where it has one.
pub proof fn law_blocks_are_told(block: (Seq<char>, Seq<(Seq<char>, Option<Seq<char>>)>), i: int)
    requires
        0 <= i < block.1.len(),
    ensures
        ({
            let told = block_json(block);
            &&& crate::value::field(told, "description"@) == Some(Json::String(block.0))
            &&& crate::value::field(told, "commands"@) matches Some(Json::Array(commands))
            &&& commands.len() == block.1.len()
            &&& crate::value::field(commands[i], "command"@) == Some(Json::String(block.1[i].0))
            &&& crate::value::field(commands[i], "description"@) == (match block.1[i].1 {
                Some(text) => Some(Json::String(text)),
                None => None,
            })
        }),
{
    broadcast use {
        crate::value::lemma_collected_found,
        crate::value::lemma_nothing_collected,
    };

    lemma_cta_keys();
}

/// A block that is shown has the text of the block above it, or one of its own, and every
/// suggestion in its turn: a simple one behind the name of the binary, and a detailed
/// one with its description, behind the name unless it begins with it.
pub proof fn law_blocks_are_shown(name: Seq<char>, block: CtaBlock, i: int)
    requires
        0 <= i < block.commands@.len(),
    ensures
        ({
            let shown = shown_block(name, block);
            &&& shown.0 == (match block.description {
                Some(text) => text@,
                None => "Suggested commands:"@,
            })
            &&& shown.1.len() == block.commands@.len()
            &&& block.commands@[i] matches CtaEntry::Simple(command) ==> shown.1[i] == (
                name + " "@ + command@,
                None::<Seq<char>>,
            )
            &&& block.commands@[i] matches CtaEntry::Detailed { command, description } ==> {
                &&& shown.1[i].1 == opt_text(description)
                &&& command@ == name || (name + " "@).is_prefix_of(command@) ==> shown.1[i].0
                    == command@
                &&& command@ != name && !(name + " "@).is_prefix_of(command@) ==> shown.1[i].0
                    == name + " "@ + command@
            }
        }),
{
}

/// A block is shown to humans line by line: an empty line, the text, and one line for
/// each suggestion, which holds its command and, behind a mark, its description.
pub proof fn law_lines_show_suggestions(
    block: (Seq<char>, Seq<(Seq<char>, Option<Seq<char>>)>),
    i: int,
)
    requires
        0 <= i < block.1.len(),
    ensures
        block_lines(block).len() == block.1.len() + 2,
        block_lines(block)[0].len() == 0,
        block_lines(block)[1] == block.0,
        ("  "@ + block.1[i].0).is_prefix_of(block_lines(block)[i + 2]),
        block.1[i].1 is None ==> block_lines(block)[i + 2] == "  "@ + block.1[i].0,
        block.1[i].1 matches Some(text) ==> ("# "@ + text).is_suffix_of(block_lines(block)[i + 2]),
{
    let line = block_lines(block)[i + 2];
    let s = block.1[i];
    assert(line == suggestion_line(s, widest(block.1)));
    assert(line.subrange(0, ("  "@ + s.0).len() as int) =~= "  "@ + s.0);
    if let Some(text) = s.1 {
        let tail = "# "@ + text;
        assert(line.subrange(line.len() - tail.len(), line.len() as int) =~= tail);
    } else {
        assert(line =~= "  "@ + s.0);
    }
}

/// An error is shown to humans with its message, and with its code unless that says
/// nothing or the message says it.
pub proof fn law_errors_show_their_message(code: Seq<char>, message: Seq<char>)
    ensures
        message.is_suffix_of(human_error(code, message)),
        code == "UNKNOWN"@ || code == "COMMAND_NOT_FOUND"@ ==> human_error(code, message)
            == "Error: "@ + message,
        code != "UNKNOWN"@ && code != "COMMAND_NOT_FOUND"@ ==> human_error(code, message)
            == "Error ("@ + code + "): "@ + message,
{
    let shown = human_error(code, message);
    assert(shown.subrange(shown.len() - message.len(), shown.len() as int) =~= message);
}

} // verus!
