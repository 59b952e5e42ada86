//! Shell completion generation for bash, zsh, fish, and nushell.
//!
//! Generates shell hook scripts for dynamic tab completions and computes
//! completion candidates based on the command tree.

use vstd::prelude::*;
use crate::json::{json_string, quoted};
use crate::schema::{
    field_from, field_named, fields, find_field, recased, to_snake, Field, FieldMeta, FieldType,
    Kind,
};
use crate::table::{keyed, lookup};
use crate::text::{
    alphanumeric, cat, cat3, chars_of, copy_opt, is_alphanumeric, join, join_texts, opt_text,
    replace, replaced, same, starts_with, strip_prefix, texts,
};

verus! {

/// Supported shell environments for completion.
#[derive(Debug, Clone, Copy, PartialEq, Eq, Structural)]
pub enum Shell {
    /// GNU Bash.
    Bash,
    /// Z shell.
    Zsh,
    /// Fish.
    Fish,
    /// Nushell.
    Nushell,
}

/// The name of a shell.
pub open spec fn shell_name(shell: Shell) -> Seq<char> {
    match shell {
        Shell::Bash => "bash"@,
        Shell::Zsh => "zsh"@,
        Shell::Fish => "fish"@,
        Shell::Nushell => "nushell"@,
    }
}

/// The shell of the given name.
pub open spec fn shell_named(s: Seq<char>) -> Option<Shell> {
    if s == "bash"@ {
        Some(Shell::Bash)
    } else if s == "zsh"@ {
        Some(Shell::Zsh)
    } else if s == "fish"@ {
        Some(Shell::Fish)
    } else if s == "nushell"@ {
        Some(Shell::Nushell)
    } else {
        None
    }
}

impl Shell {
    /// Parses a shell name from a string.
    pub fn from_str(s: &str) -> (r: Option<Shell>)
        ensures
            r == shell_named(s@),
    {
        if same(s, "bash") {
            Some(Shell::Bash)
        } else if same(s, "zsh") {
            Some(Shell::Zsh)
        } else if same(s, "fish") {
            Some(Shell::Fish)
        } else if same(s, "nushell") {
            Some(Shell::Nushell)
        } else {
            None
        }
    }

    /// The name of the shell.
    pub fn name(&self) -> (r: String)
        ensures
            r@ == shell_name(*self),
    {
        match self {
            Shell::Bash => "bash".to_string(),
            Shell::Zsh => "zsh".to_string(),
            Shell::Fish => "fish".to_string(),
            Shell::Nushell => "nushell".to_string(),
        }
    }
}

/// A completion candidate with an optional description.
#[derive(Debug, Clone)]
pub struct Candidate {
    /// The completion value.
    pub value: String,
    /// Optional description shown alongside the candidate.
    pub description: Option<String>,
    /// When true, the shell should not append a trailing space after this candidate.
    pub no_space: bool,
}

/// What a [`Candidate`] means.
pub struct Choice {
    /// The completion value.
    pub value: Seq<char>,
    /// Optional description.
    pub description: Option<Seq<char>>,
    /// Whether no space follows the value.
    pub no_space: bool,
}

impl View for Candidate {
    type V = Choice;

    open spec fn view(&self) -> Choice {
        Choice {
            value: self.value@,
            description: opt_text(self.description),
            no_space: self.no_space,
        }
    }
}

/// What candidates mean.
pub open spec fn choices(v: Seq<Candidate>) -> Seq<Choice> {
    v.map_values(|c: Candidate| c@)
}

/// A command entry in the command tree (either a leaf or a group).
///
/// This is a minimal representation sufficient for completions.
#[derive(Debug)]
pub struct CommandEntry {
    /// Whether this entry is a group (has subcommands).
    pub is_group: bool,
    /// Human-readable description.
    pub description: Option<String>,
    /// Subcommands (only populated for groups), a table keyed by name.
    pub commands: Vec<(String, CommandEntry)>,
    /// Option field metadata for leaf commands.
    pub options_fields: Vec<FieldMeta>,
    /// Short alias table: option name -> alias character.
    pub aliases: Vec<(String, char)>,
}

/// What a [`CommandEntry`] means.
#[verifier::ext_equal]
pub struct Node {
    /// Whether the entry is a group.
    pub is_group: bool,
    /// Human-readable description.
    pub description: Option<Seq<char>>,
    /// Subcommands.
    pub commands: Seq<(Seq<char>, Node)>,
    /// Option fields.
    pub options: Seq<Field>,
    /// Option names and their aliases.
    pub aliases: Seq<(Seq<char>, char)>,
}

impl View for CommandEntry {
    type V = Node;

    open spec fn view(&self) -> Node
        decreases *self,
    {
        Node {
            is_group: self.is_group,
            description: opt_text(self.description),
            commands: Seq::new(
                self.commands@.len(),
                |i: int|
                    if 0 <= i < self.commands@.len() {
                        (self.commands@[i].0@, self.commands@[i].1.view())
                    } else {
                        arbitrary()
                    },
            ),
            options: fields(self.options_fields@),
            aliases: keyed(self.aliases@),
        }
    }
}

/// What the entries of a group mean.
pub open spec fn nodes(v: Seq<(String, CommandEntry)>) -> Seq<(Seq<char>, Node)> {
    v.map_values(|e: (String, CommandEntry)| (e.0@, e.1@))
}

/// An entry means what its parts mean.
pub broadcast proof fn lemma_entry_view(e: CommandEntry)
    ensures
        (#[trigger] e@).commands == nodes(e.commands@),
{
    reveal_with_fuel(<CommandEntry as View>::view, 2);
    assert(e@.commands =~= nodes(e.commands@));
}

/// What stands under a name means what the meaning holds under it.
pub proof fn lemma_lookup_node(v: Seq<(String, CommandEntry)>, name: Seq<char>)
    ensures
        lookup(nodes(v), name) == match lookup(keyed(v), name) {
            Some(e) => Some(e@),
            None => None,
        },
{
    assert(crate::table::keys(nodes(v)) =~= crate::table::keys(keyed(v)));
    crate::table::lemma_position_from(crate::table::keys(keyed(v)), name, 0);
}

/// A root command definition (the CLI itself, which may have options).
#[derive(Debug)]
pub struct CommandDef {
    /// Option field metadata.
    pub options_fields: Vec<FieldMeta>,
    /// Short alias table: option name -> alias character.
    pub aliases: Vec<(String, char)>,
}

// ---------------------------------------------------------------------------
// Shell registration scripts
// ---------------------------------------------------------------------------

/// A name with everything but ASCII letters, digits and underscores put as an
/// underscore.
pub open spec fn identifier(name: Seq<char>) -> Seq<char> {
    name.map_values(
        |c: char|
            if alphanumeric(c) || c == '_' {
                c
            } else {
                '_'
            },
    )
}

/// Sanitizes a CLI name into a valid shell identifier.
pub fn ident(name: &str) -> (r: String)
    ensures
        r@ == identifier(name@),
{
    let x = chars_of(name);
    let mut out = String::new();
    let mut i: usize = 0;
    while i < x.len()
        invariant
            i <= x@.len(),
            x@ == name@,
            out@ == identifier(name@).take(i as int),
        decreases x.len() - i,
    {
        let c = if is_alphanumeric(x[i]) || x[i] == '_' {
            x[i]
        } else {
            '_'
        };
        out.push(c);
        assert(identifier(name@).take(i + 1) =~= identifier(name@).take(i as int).push(c));
        i += 1;
    }
    assert(identifier(name@).take(name@.len() as int) =~= identifier(name@));
    out
}

/// The hook script for bash.
pub open spec fn bash_script(name: Seq<char>) -> Seq<char> {
    "_incur_complete_"@ + identifier(name)
        + "() {\n    local IFS=$'\\013'\n    local _COMPLETE_INDEX=${COMP_CWORD}\n    local _completions\n    _completions=( $(\n        COMPLETE=\"bash\"\n        _COMPLETE_INDEX=\"$_COMPLETE_INDEX\"\n        \""@
        + name
        + "\" -- \"${COMP_WORDS[@]}\"\n    ) )\n    if [[ $? != 0 ]]; then\n        unset COMPREPLY\n        return\n    fi\n    local _nospace=false\n    COMPREPLY=()\n    for _c in \"${_completions[@]}\"; do\n        if [[ \"$_c\" == *$'\\001' ]]; then\n            _nospace=true\n            COMPREPLY+=(\"${_c%$'\\001'}\")\n        else\n            COMPREPLY+=(\"$_c\")\n        fi\n    done\n    if [[ $_nospace == true ]]; then\n        compopt -o nospace\n    fi\n}\ncomplete -o default -o bashdefault -o nosort -F _incur_complete_"@
        + identifier(name) + " "@ + name
}

/// The hook script for zsh.
pub open spec fn zsh_script(name: Seq<char>) -> Seq<char> {
    "#compdef "@ + name + "\n_incur_complete_"@ + identifier(name)
        + "() {\n    local completions=(\"${(@f)$(\n        _COMPLETE_INDEX=$(( CURRENT - 1 ))\n        COMPLETE=\"zsh\"\n        \""@
        + name
        + "\" -- \"${words[@]}\" 2>/dev/null\n    )}\")\n    if [[ -n $completions ]]; then\n        _describe 'values' completions -S ''\n    fi\n}\ncompdef _incur_complete_"@
        + identifier(name) + " "@ + name
}

/// The hook script for fish.
pub open spec fn fish_script(name: Seq<char>) -> Seq<char> {
    "complete --keep-order --exclusive --command "@ + name
        + " \\\n    --arguments \"(COMPLETE=fish "@ + name
        + " -- (commandline --current-process --tokenize --cut-at-cursor) (commandline --current-token))\""@
}

/// The hook script for nushell.
pub open spec fn nushell_script(name: Seq<char>) -> Seq<char> {
    "# External completer for "@ + name
        + "\n# Add to $env.config.completions.external.completer or use in a dispatch completer.\nlet _incur_complete_"@
        + identifier(name) + " = {|spans|\n    COMPLETE=nushell "@ + name
        + " -- ...$spans | from json\n}"@
}

/// The hook script for a shell.
pub open spec fn script(shell: Shell, name: Seq<char>) -> Seq<char> {
    match shell {
        Shell::Bash => bash_script(name),
        Shell::Zsh => zsh_script(name),
        Shell::Fish => fish_script(name),
        Shell::Nushell => nushell_script(name),
    }
}

/// Generates a shell hook script that registers dynamic completions for the CLI.
///
/// The hook calls back into the binary with `COMPLETE=<shell>` at every tab press.
pub fn register(shell: Shell, name: &str) -> (r: String)
    ensures
        r@ == script(shell, name@),
{
    match shell {
        Shell::Bash => bash_register(name),
        Shell::Zsh => zsh_register(name),
        Shell::Fish => fish_register(name),
        Shell::Nushell => nushell_register(name),
    }
}

fn bash_register(name: &str) -> (r: String)
    ensures
        r@ == bash_script(name@),
{
    let id = ident(name);
    let mut out = cat("_incur_complete_", id.as_str());
    out.append(
        "() {\n    local IFS=$'\\013'\n    local _COMPLETE_INDEX=${COMP_CWORD}\n    local _completions\n    _completions=( $(\n        COMPLETE=\"bash\"\n        _COMPLETE_INDEX=\"$_COMPLETE_INDEX\"\n        \"",
    );
    out.append(name);
    out.append(
        "\" -- \"${COMP_WORDS[@]}\"\n    ) )\n    if [[ $? != 0 ]]; then\n        unset COMPREPLY\n        return\n    fi\n    local _nospace=false\n    COMPREPLY=()\n    for _c in \"${_completions[@]}\"; do\n        if [[ \"$_c\" == *$'\\001' ]]; then\n            _nospace=true\n            COMPREPLY+=(\"${_c%$'\\001'}\")\n        else\n            COMPREPLY+=(\"$_c\")\n        fi\n    done\n    if [[ $_nospace == true ]]; then\n        compopt -o nospace\n    fi\n}\ncomplete -o default -o bashdefault -o nosort -F _incur_complete_",
    );
    out.append(id.as_str());
    out.append(" ");
    out.append(name);
    out
}

fn zsh_register(name: &str) -> (r: String)
    ensures
        r@ == zsh_script(name@),
{
    let id = ident(name);
    let mut out = cat3("#compdef ", name, "\n_incur_complete_");
    out.append(id.as_str());
    out.append(
        "() {\n    local completions=(\"${(@f)$(\n        _COMPLETE_INDEX=$(( CURRENT - 1 ))\n        COMPLETE=\"zsh\"\n        \"",
    );
    out.append(name);
    out.append(
        "\" -- \"${words[@]}\" 2>/dev/null\n    )}\")\n    if [[ -n $completions ]]; then\n        _describe 'values' completions -S ''\n    fi\n}\ncompdef _incur_complete_",
    );
    out.append(id.as_str());
    out.append(" ");
    out.append(name);
    out
}

fn fish_register(name: &str) -> (r: String)
    ensures
        r@ == fish_script(name@),
{
    let mut out = cat3(
        "complete --keep-order --exclusive --command ",
        name,
        " \\\n    --arguments \"(COMPLETE=fish ",
    );
    out.append(name);
    out.append(
        " -- (commandline --current-process --tokenize --cut-at-cursor) (commandline --current-token))\"",
    );
    out
}

fn nushell_register(name: &str) -> (r: String)
    ensures
        r@ == nushell_script(name@),
{
    let id = ident(name);
    let mut out = cat3(
        "# External completer for ",
        name,
        "\n# Add to $env.config.completions.external.completer or use in a dispatch completer.\nlet _incur_complete_",
    );
    out.append(id.as_str());
    out.append(" = {|spans|\n    COMPLETE=nushell ");
    out.append(name);
    out.append(" -- ...$spans | from json\n}");
    out
}

// ---------------------------------------------------------------------------
// Completion computation
// ---------------------------------------------------------------------------

/// What completions know of the active leaf command.
pub struct Leaf {
    /// Option fields.
    pub options: Seq<Field>,
    /// Option names and their aliases.
    pub aliases: Seq<(Seq<char>, char)>,
}

/// Whether a word is an option.
pub open spec fn dashed(word: Seq<char>) -> bool {
    "-"@.is_prefix_of(word)
}

/// The commands and the leaf in scope behind `words`. A group opens its
/// commands and closes the leaf, a leaf ends the walk, and options and unknown
/// words are passed over.
pub open spec fn scope(
    commands: Seq<(Seq<char>, Node)>,
    leaf: Option<Leaf>,
    words: Seq<Seq<char>>,
) -> (Seq<(Seq<char>, Node)>, Option<Leaf>)
    decreases words.len(),
{
    if words.len() == 0 {
        (commands, leaf)
    } else if dashed(words[0]) {
        scope(commands, leaf, words.skip(1))
    } else {
        match lookup(commands, words[0]) {
            Some(entry) => if entry.is_group {
                scope(entry.commands, None, words.skip(1))
            } else {
                (commands, Some(Leaf { options: entry.options, aliases: entry.aliases }))
            },
            None => scope(commands, leaf, words.skip(1)),
        }
    }
}

/// The long flags that `current` begins.
pub open spec fn long_choices(options: Seq<Field>, current: Seq<char>) -> Seq<Choice>
    decreases options.len(),
{
    if options.len() == 0 {
        Seq::empty()
    } else {
        let head = long_choices(options.drop_last(), current);
        let flag = "--"@ + options.last().cli_name;
        if current.is_prefix_of(flag) {
            head.push(
                Choice { value: flag, description: options.last().description, no_space: false },
            )
        } else {
            head
        }
    }
}

/// The short flags that `current` begins, described as their options are.
pub open spec fn short_choices(
    aliases: Seq<(Seq<char>, char)>,
    options: Seq<Field>,
    current: Seq<char>,
) -> Seq<Choice>
    decreases aliases.len(),
{
    if aliases.len() == 0 {
        Seq::empty()
    } else {
        let head = short_choices(aliases.drop_last(), options, current);
        let flag = "-"@.push(aliases.last().1);
        if current.is_prefix_of(flag) {
            head.push(
                Choice {
                    value: flag,
                    description: match field_named(options, aliases.last().0) {
                        Some(field) => field.description,
                        None => None,
                    },
                    no_space: false,
                },
            )
        } else {
            head
        }
    }
}

/// The values that `current` begins.
pub open spec fn value_choices(values: Seq<Seq<char>>, current: Seq<char>) -> Seq<Choice>
    decreases values.len(),
{
    if values.len() == 0 {
        Seq::empty()
    } else {
        let head = value_choices(values.drop_last(), current);
        if current.is_prefix_of(values.last()) {
            head.push(Choice { value: values.last(), description: None, no_space: false })
        } else {
            head
        }
    }
}

/// The commands that `current` begins.
pub open spec fn command_choices(
    commands: Seq<(Seq<char>, Node)>,
    current: Seq<char>,
) -> Seq<Choice>
    decreases commands.len(),
{
    if commands.len() == 0 {
        Seq::empty()
    } else {
        let head = command_choices(commands.drop_last(), current);
        let last = commands.last();
        if current.is_prefix_of(last.0) {
            head.push(
                Choice {
                    value: last.0,
                    description: last.1.description,
                    no_space: last.1.is_group,
                },
            )
        } else {
            head
        }
    }
}

/// The name behind the first entry with the given alias.
pub open spec fn alias_name(aliases: Seq<(Seq<char>, char)>, c: char, from: nat) -> Option<Seq<char>>
    decreases aliases.len() - from,
{
    if from >= aliases.len() {
        None
    } else if aliases[from as int].1 == c {
        Some(aliases[from as int].0)
    } else {
        alias_name(aliases, c, from + 1)
    }
}

/// The option that a flag stands for: by its long name, with hyphens read as
/// underscores or as it stands, or by its one-character alias.
pub open spec fn option_for(token: Seq<char>, leaf: Leaf) -> Option<Seq<char>> {
    if "--"@.is_prefix_of(token) {
        let raw = token.skip(2);
        let snake = recased(raw, '-', '_');
        if field_named(leaf.options, snake) is Some {
            Some(snake)
        } else if field_named(leaf.options, raw) is Some {
            Some(raw)
        } else {
            None
        }
    } else if dashed(token) && token.len() == 2 && (token[1] as u32) < 128 {
        alias_name(leaf.aliases, token[1], 0)
    } else {
        None
    }
}

/// The values that an option can have, where they are listed.
pub open spec fn listed_values(options: Seq<Field>, name: Seq<char>) -> Option<Seq<Seq<char>>> {
    match field_named(options, name) {
        Some(field) => match field.kind {
            Kind::Enum(values) => Some(values),
            _ => None,
        },
        None => None,
    }
}

/// Whether an option is a switch.
pub open spec fn switch_option(options: Seq<Field>, name: Seq<char>) -> bool {
    field_named(options, name) matches Some(field) && (field.kind is Boolean || field.kind is Count)
}

/// The words before the cursor.
pub open spec fn words_before(argv: Seq<Seq<char>>, index: nat) -> Seq<Seq<char>> {
    if index < argv.len() {
        argv.take(index as int)
    } else {
        argv
    }
}

/// The word at a position, and no text where there is none.
pub open spec fn word_at(argv: Seq<Seq<char>>, index: int) -> Seq<char> {
    if 0 <= index < argv.len() {
        argv[index]
    } else {
        Seq::empty()
    }
}

/// What completes the word at the cursor.
pub open spec fn completed(
    commands: Seq<(Seq<char>, Node)>,
    root: Option<Leaf>,
    argv: Seq<Seq<char>>,
    index: nat,
) -> Seq<Choice> {
    let current = word_at(argv, index as int);
    let (scoped, leaf) = scope(commands, root, words_before(argv, index));
    if dashed(current) {
        match leaf {
            Some(l) => long_choices(l.options, current) + short_choices(
                l.aliases,
                l.options,
                current,
            ),
            None => Seq::empty(),
        }
    } else {
        match awaited(leaf, word_at(argv, index - 1)) {
            Some(values) => value_choices(values, current),
            None => command_choices(scoped, current),
        }
    }
}

/// The values that the word behind `prev` can have, where `prev` is an option
/// that takes a value: those listed, or none that are known.
pub open spec fn awaited(leaf: Option<Leaf>, prev: Seq<char>) -> Option<Seq<Seq<char>>> {
    match leaf {
        Some(l) => match option_for(prev, l) {
            Some(name) => match listed_values(l.options, name) {
                Some(values) => Some(values),
                None => if switch_option(l.options, name) {
                    None
                } else {
                    Some(Seq::empty())
                },
            },
            None => None,
        },
        None => None,
    }
}

/// Borrowed view of a leaf command's completion-relevant data.
struct LeafInfo<'a> {
    options_fields: &'a Vec<FieldMeta>,
    aliases: &'a Vec<(String, char)>,
}

impl<'a> LeafInfo<'a> {
    spec fn leaf(&self) -> Leaf {
        Leaf { options: fields(self.options_fields@), aliases: keyed(self.aliases@) }
    }
}

/// What an optional root command means.
pub open spec fn root_leaf(root: Option<&CommandDef>) -> Option<Leaf> {
    match root {
        Some(r) => Some(
            Leaf { options: fields(r.options_fields@), aliases: keyed(r.aliases@) },
        ),
        None => None,
    }
}

spec fn opt_leaf(leaf: Option<LeafInfo>) -> Option<Leaf> {
    match leaf {
        Some(l) => Some(l.leaf()),
        None => None,
    }
}

/// Resolves a flag token (e.g. `--foo-bar` or `-f`) to its option field name.
fn resolve_option_name(token: &str, leaf: &LeafInfo<'_>) -> (r: Option<String>)
    ensures
        opt_text(r) == option_for(token@, leaf.leaf()),
{
    proof {
        reveal_strlit("--");
        reveal_strlit("-");
    }
    if let Some(raw) = strip_prefix(token, "--") {
        let snake = to_snake(raw.as_str());
        if find_field(leaf.options_fields, snake.as_str()).is_some() {
            return Some(snake);
        }
        if find_field(leaf.options_fields, raw.as_str()).is_some() {
            return Some(raw);
        }
        return None;
    }
    if !starts_with(token, "-") {
        return None;
    }
    let x = chars_of(token);
    if x.len() != 2 || x[1] as u32 >= 128 {
        return None;
    }
    let short = x[1];
    let ghost all = keyed(leaf.aliases@);
    let mut i: usize = 0;
    while i < leaf.aliases.len()
        invariant
            i <= leaf.aliases@.len(),
            all == keyed(leaf.aliases@),
            alias_name(all, short, 0) == alias_name(all, short, i as nat),
            option_for(token@, leaf.leaf()) == alias_name(all, short, 0),
        decreases leaf.aliases.len() - i,
    {
        if leaf.aliases[i].1 == short {
            return Some(leaf.aliases[i].0.clone());
        }
        i += 1;
    }
    None
}

/// Checks if an option is boolean or count type.
fn is_boolean_option(name: &str, all: &Vec<FieldMeta>) -> (r: bool)
    ensures
        r == switch_option(fields(all@), name@),
{
    match find_field(all, name) {
        Some(field) => match field.field_type {
            FieldType::Boolean => true,
            FieldType::Count => true,
            _ => false,
        },
        None => false,
    }
}

/// Extracts possible values from enum-typed fields.
fn possible_values(name: &str, all: &Vec<FieldMeta>) -> (r: Option<Vec<String>>)
    ensures
        match r {
            Some(values) => listed_values(fields(all@), name@) == Some(texts(values@)),
            None => listed_values(fields(all@), name@) is None,
        },
{
    match find_field(all, name) {
        Some(field) => match &field.field_type {
            FieldType::Enum(values) => Some(values.clone()),
            _ => None,
        },
        None => None,
    }
}

/// Suggests the options of the active leaf command.
fn option_candidates(leaf: &LeafInfo<'_>, current: &str) -> (r: Vec<Candidate>)
    ensures
        choices(r@) == long_choices(leaf.leaf().options, current@) + short_choices(
            leaf.leaf().aliases,
            leaf.leaf().options,
            current@,
        ),
{
    let ghost all = fields(leaf.options_fields@);
    let ghost shorts = keyed(leaf.aliases@);
    let mut out: Vec<Candidate> = Vec::new();
    let mut i: usize = 0;
    assert(choices(out@) =~= long_choices(all.take(0), current@));
    while i < leaf.options_fields.len()
        invariant
            i <= leaf.options_fields@.len(),
            all == fields(leaf.options_fields@),
            choices(out@) == long_choices(all.take(i as int), current@),
        decreases leaf.options_fields.len() - i,
    {
        let ghost was = choices(out@);
        assert(all.take(i + 1).drop_last() =~= all.take(i as int));
        let field = &leaf.options_fields[i];
        assert(all[i as int] == field@);
        let flag = cat("--", field.cli_name.as_str());
        if starts_with(flag.as_str(), current) {
            let next = Candidate {
                value: flag,
                description: copy_opt(&field.description),
                no_space: false,
            };
            let ghost n = next@;
            out.push(next);
            assert(choices(out@) =~= was.push(n));
        }
        i += 1;
    }
    assert(all.take(all.len() as int) =~= all);
    let ghost longs = choices(out@);
    let mut k: usize = 0;
    assert(longs + short_choices(shorts.take(0), all, current@) =~= longs);
    while k < leaf.aliases.len()
        invariant
            k <= leaf.aliases@.len(),
            all == fields(leaf.options_fields@),
            shorts == keyed(leaf.aliases@),
            choices(out@) == longs + short_choices(shorts.take(k as int), all, current@),
        decreases leaf.aliases.len() - k,
    {
        let ghost was = choices(out@);
        assert(shorts.take(k + 1).drop_last() =~= shorts.take(k as int));
        let mut flag = "-".to_string();
        flag.push(leaf.aliases[k].1);
        assert(shorts[k as int] == (leaf.aliases@[k as int].0@, leaf.aliases@[k as int].1));
        if starts_with(flag.as_str(), current) {
            let description = match find_field(leaf.options_fields, leaf.aliases[k].0.as_str()) {
                Some(field) => copy_opt(&field.description),
                None => None,
            };
            let next = Candidate { value: flag, description, no_space: false };
            let ghost n = next@;
            out.push(next);
            assert(choices(out@) =~= was.push(n));
            assert(choices(out@) =~= longs + short_choices(shorts.take(k + 1), all, current@));
        }
        k += 1;
    }
    assert(shorts.take(shorts.len() as int) =~= shorts);
    out
}

/// Suggests the given values.
fn value_candidates(values: &Vec<String>, current: &str) -> (r: Vec<Candidate>)
    ensures
        choices(r@) == value_choices(texts(values@), current@),
{
    let ghost all = texts(values@);
    let mut out: Vec<Candidate> = Vec::new();
    let mut i: usize = 0;
    assert(choices(out@) =~= value_choices(all.take(0), current@));
    while i < values.len()
        invariant
            i <= values@.len(),
            all == texts(values@),
            choices(out@) == value_choices(all.take(i as int), current@),
        decreases values.len() - i,
    {
        let ghost was = choices(out@);
        assert(all.take(i + 1).drop_last() =~= all.take(i as int));
        assert(all[i as int] == values@[i as int]@);
        if starts_with(values[i].as_str(), current) {
            let next = Candidate { value: values[i].clone(), description: None, no_space: false };
            let ghost n = next@;
            out.push(next);
            assert(choices(out@) =~= was.push(n));
        }
        i += 1;
    }
    assert(all.take(all.len() as int) =~= all);
    out
}

/// Suggests commands.
fn command_candidates(commands: &Vec<(String, CommandEntry)>, current: &str) -> (r: Vec<Candidate>)
    ensures
        choices(r@) == command_choices(nodes(commands@), current@),
{
    let ghost all = nodes(commands@);
    let mut out: Vec<Candidate> = Vec::new();
    let mut i: usize = 0;
    assert(choices(out@) =~= command_choices(all.take(0), current@));
    while i < commands.len()
        invariant
            i <= commands@.len(),
            all == nodes(commands@),
            choices(out@) == command_choices(all.take(i as int), current@),
        decreases commands.len() - i,
    {
        let ghost was = choices(out@);
        assert(all.take(i + 1).drop_last() =~= all.take(i as int));
        assert(all[i as int] == (commands@[i as int].0@, commands@[i as int].1@));
        if starts_with(commands[i].0.as_str(), current) {
            let next = Candidate {
                value: commands[i].0.clone(),
                description: copy_opt(&commands[i].1.description),
                no_space: commands[i].1.is_group,
            };
            let ghost n = next@;
            out.push(next);
            assert(choices(out@) =~= was.push(n));
        }
        i += 1;
    }
    assert(all.take(all.len() as int) =~= all);
    out
}

/// Computes completion candidates for the given argv words and cursor index.
///
/// Walks the command tree to resolve the active command, then suggests
/// subcommands, options, or positional argument hints.
pub fn complete(
    commands: &Vec<(String, CommandEntry)>,
    root_command: Option<&CommandDef>,
    argv: &Vec<String>,
    index: usize,
) -> (r: Vec<Candidate>)
    ensures
        choices(r@) == completed(
            nodes(commands@),
            root_leaf(root_command),
            texts(argv@),
            index as nat,
        ),
{
    let ghost all = texts(argv@);
    let current: String = if index < argv.len() {
        argv[index].clone()
    } else {
        String::new()
    };
    assert(current@ =~= word_at(all, index as int));
    let end: usize = if index < argv.len() {
        index
    } else {
        argv.len()
    };
    let ghost words = words_before(all, index as nat);
    assert(words =~= all.take(end as int));
    let ghost root = root_leaf(root_command);
    let mut scoped = commands;
    let mut leaf: Option<LeafInfo> = match root_command {
        Some(r) => Some(LeafInfo { options_fields: &r.options_fields, aliases: &r.aliases }),
        None => None,
    };
    let mut i: usize = 0;
    let mut done: bool = false;
    assert(words.skip(0) =~= words);
    while i < end && !done
        invariant
            i <= end <= argv@.len(),
            all == texts(argv@),
            words == all.take(end as int),
            !done ==> scope(nodes(scoped@), opt_leaf(leaf), words.skip(i as int)) == scope(
                nodes(commands@),
                root,
                words,
            ),
            done ==> (nodes(scoped@), opt_leaf(leaf)) == scope(nodes(commands@), root, words),
        decreases end - i,
    {
        let token = argv[i].as_str();
        let ghost rest = words.skip(i as int);
        assert(rest[0] == token@);
        assert(rest.skip(1) =~= words.skip(i + 1));
        proof {
            lemma_lookup_node(scoped@, token@);
        }
        if !starts_with(token, "-") {
            match crate::table::get(scoped, token) {
                Some(entry) => {
                    proof {
                        lemma_entry_view(*entry);
                    }
                    if entry.is_group {
                        scoped = &entry.commands;
                        leaf = None;
                    } else {
                        leaf =
                        Some(
                            LeafInfo {
                                options_fields: &entry.options_fields,
                                aliases: &entry.aliases,
                            },
                        );
                        done = true;
                    }
                },
                None => {},
            }
        }
        i += 1;
    }
    assert(!done ==> words.skip(i as int) =~= Seq::<Seq<char>>::empty());
    assert((nodes(scoped@), opt_leaf(leaf)) == scope(nodes(commands@), root, words));
    if starts_with(current.as_str(), "-") {
        return match &leaf {
            Some(l) => option_candidates(l, current.as_str()),
            None => {
                let none: Vec<Candidate> = Vec::new();
                assert(choices(none@) =~= Seq::<Choice>::empty());
                none
            },
        };
    }
    let prev: String = if index > 0 && index - 1 < argv.len() {
        argv[index - 1].clone()
    } else {
        String::new()
    };
    assert(prev@ =~= word_at(all, index - 1));
    if let Some(l) = &leaf {
        if let Some(name) = resolve_option_name(prev.as_str(), l) {
            if let Some(values) = possible_values(name.as_str(), l.options_fields) {
                return value_candidates(&values, current.as_str());
            }
            if !is_boolean_option(name.as_str(), l.options_fields) {
                let none: Vec<Candidate> = Vec::new();
                assert(choices(none@) =~= Seq::<Choice>::empty());
                return none;
            }
        }
    }
    command_candidates(scoped, current.as_str())
}

// ---------------------------------------------------------------------------
// Formatting
// ---------------------------------------------------------------------------

/// A candidate as bash reads it: a trailing mark where no space may follow.
pub open spec fn bash_text(c: Choice) -> Seq<char> {
    if c.no_space {
        c.value + "\u{1}"@
    } else {
        c.value
    }
}

/// A candidate as zsh reads it: colons of the value escaped, the description
/// behind a colon.
pub open spec fn zsh_text(c: Choice) -> Seq<char> {
    let value = replaced(c.value, ":"@, "\\:"@);
    match c.description {
        Some(d) => value + ":"@ + d,
        None => value,
    }
}

/// A candidate as fish reads it: the description behind a tab.
pub open spec fn fish_text(c: Choice) -> Seq<char> {
    match c.description {
        Some(d) => c.value + "\t"@ + d,
        None => c.value,
    }
}

/// A candidate as nushell reads it: a JSON object with the value and, where there is
/// one, the description.
pub open spec fn nushell_text(c: Choice) -> Seq<char> {
    let value = "{\"value\":"@ + quoted(c.value);
    match c.description {
        Some(d) => value + ",\"description\":"@ + quoted(d) + "}"@,
        None => value + "}"@,
    }
}

/// A candidate as a shell reads it.
pub open spec fn shell_text(shell: Shell, c: Choice) -> Seq<char> {
    match shell {
        Shell::Bash => bash_text(c),
        Shell::Zsh => zsh_text(c),
        Shell::Fish => fish_text(c),
        Shell::Nushell => nushell_text(c),
    }
}

/// The candidates as a shell reads them: a list behind a mark for bash, lines for zsh
/// and fish, and a JSON array for nushell.
pub open spec fn formatted(shell: Shell, all: Seq<Choice>) -> Seq<char> {
    let parts = all.map_values(|c: Choice| shell_text(shell, c));
    match shell {
        Shell::Bash => join(parts, "\u{b}"@),
        Shell::Nushell => "["@ + join(parts, ","@) + "]"@,
        _ => join(parts, "\n"@),
    }
}

/// Writes one candidate.
fn candidate_text(shell: Shell, c: &Candidate) -> (r: String)
    ensures
        r@ == shell_text(shell, c@),
{
    match shell {
        Shell::Bash => if c.no_space {
            cat(c.value.as_str(), "\u{1}")
        } else {
            c.value.clone()
        },
        Shell::Zsh => {
            proof {
                reveal_strlit(":");
            }
            let value = replace(c.value.as_str(), ":", "\\:");
            match &c.description {
                Some(d) => cat3(value.as_str(), ":", d.as_str()),
                None => value,
            }
        },
        Shell::Fish => match &c.description {
            Some(d) => cat3(c.value.as_str(), "\t", d.as_str()),
            None => c.value.clone(),
        },
        Shell::Nushell => {
            let value = json_string(c.value.as_str());
            let front = cat("{\"value\":", value.as_str());
            match &c.description {
                Some(d) => {
                    let description = json_string(d.as_str());
                    let both = cat3(front.as_str(), ",\"description\":", description.as_str());
                    cat(both.as_str(), "}")
                },
                None => cat(front.as_str(), "}"),
            }
        },
    }
}

/// Formats completion candidates into shell-specific output.
pub fn format(shell: Shell, candidates: &Vec<Candidate>) -> (r: String)
    ensures
        r@ == formatted(shell, choices(candidates@)),
{
    let ghost all = choices(candidates@).map_values(|c: Choice| shell_text(shell, c));
    let mut parts: Vec<String> = Vec::new();
    let mut i: usize = 0;
    while i < candidates.len()
        invariant
            i <= candidates@.len(),
            all == choices(candidates@).map_values(|c: Choice| shell_text(shell, c)),
            texts(parts@) == all.take(i as int),
        decreases candidates.len() - i,
    {
        let ghost was = texts(parts@);
        let part = candidate_text(shell, &candidates[i]);
        assert(part@ == all[i as int]);
        parts.push(part);
        assert(texts(parts@) =~= was.push(all[i as int]));
        assert(all.take(i + 1) =~= all.take(i as int).push(all[i as int]));
        i += 1;
    }
    assert(all.take(all.len() as int) =~= all);
    match shell {
        Shell::Bash => join_texts(&parts, "\u{b}"),
        Shell::Nushell => {
            let inner = join_texts(&parts, ",");
            cat3("[", inner.as_str(), "]")
        },
        _ => join_texts(&parts, "\n"),
    }
}

// ---------------------------------------------------------------------------
// Laws
// ---------------------------------------------------------------------------

/// A shell identifier has as many characters as the name, all of them letters,
/// digits or underscores.
pub proof fn law_identifier_is_safe(name: Seq<char>)
    ensures
        identifier(name).len() == name.len(),
        forall|i: int|
            0 <= i < name.len() ==> alphanumeric(#[trigger] identifier(name)[i])
                || identifier(name)[i] == '_',
        identifier(identifier(name)) == identifier(name),
{
    assert(identifier(identifier(name)) =~= identifier(name));
}

/// Every name of a shell is read back as that shell.
pub proof fn law_shell_names_round_trip(shell: Shell)
    ensures
        shell_named(shell_name(shell)) == Some(shell),
{
    reveal_strlit("bash");
    reveal_strlit("zsh");
    reveal_strlit("fish");
    reveal_strlit("nushell");
    assert("bash"@.len() == 4 && "zsh"@.len() == 3 && "fish"@.len() == 4 && "nushell"@.len() == 7);
    assert("bash"@[0] == 'b' && "fish"@[0] == 'f');
}

/// Every suggested command begins with the word at the cursor.
pub proof fn law_command_choices_begin_with_current(
    commands: Seq<(Seq<char>, Node)>,
    current: Seq<char>,
    i: int,
)
    requires
        0 <= i < command_choices(commands, current).len(),
    ensures
        current.is_prefix_of(command_choices(commands, current)[i].value),
    decreases commands.len(),
{
    if commands.len() > 0 {
        if i < command_choices(commands.drop_last(), current).len() {
            law_command_choices_begin_with_current(commands.drop_last(), current, i);
        }
    }
}

/// Every suggested option begins with the word at the cursor.
pub proof fn law_long_choices_begin_with_current(
    options: Seq<Field>,
    current: Seq<char>,
    i: int,
)
    requires
        0 <= i < long_choices(options, current).len(),
    ensures
        current.is_prefix_of(long_choices(options, current)[i].value),
    decreases options.len(),
{
    if options.len() > 0 {
        if i < long_choices(options.drop_last(), current).len() {
            law_long_choices_begin_with_current(options.drop_last(), current, i);
        }
    }
}

/// The commands that are offered are those that begin with what was typed, in order,
/// under their names and with their descriptions; behind a group the line goes on.
pub proof fn law_commands_are_offered(
    a: Seq<(Seq<char>, Node)>,
    b: Seq<(Seq<char>, Node)>,
    one: (Seq<char>, Node),
    current: Seq<char>,
)
    ensures
        command_choices(a + b, current) == command_choices(a, current) + command_choices(b, current),
        current.is_prefix_of(one.0) ==> command_choices(seq![one], current) == seq![
            Choice {
                value: one.0,
                description: one.1.description,
                no_space: one.1.is_group,
            },
        ],
        !current.is_prefix_of(one.0) ==> command_choices(seq![one], current).len() == 0,
    decreases b.len(),
{
    reveal_with_fuel(command_choices, 2);
    assert(seq![one].drop_last() =~= Seq::empty());
    assert(command_choices(seq![one].drop_last(), current) =~= Seq::empty());
    if b.len() == 0 {
        assert(a + b =~= a);
        assert(command_choices(a, current) + command_choices(b, current) =~= command_choices(a, current));
    } else {
        law_commands_are_offered(a, b.drop_last(), one, current);
        assert((a + b).drop_last() =~= a + b.drop_last());
        assert((a + b).last() == b.last());
        assert(command_choices(a + b, current) =~= command_choices(a, current) + command_choices(b, current));
    }
}

/// The long options that are offered are those that begin with what was typed, in order,
/// behind two dashes and with their descriptions.
pub proof fn law_long_options_are_offered(
    a: Seq<Field>,
    b: Seq<Field>,
    one: Field,
    current: Seq<char>,
)
    ensures
        long_choices(a + b, current) == long_choices(a, current) + long_choices(b, current),
        current.is_prefix_of("--"@ + one.cli_name) ==> long_choices(seq![one], current) == seq![
            Choice {
                value: "--"@ + one.cli_name,
                description: one.description,
                no_space: false,
            },
        ],
        !current.is_prefix_of("--"@ + one.cli_name) ==> long_choices(seq![one], current).len() == 0,
    decreases b.len(),
{
    reveal_with_fuel(long_choices, 2);
    assert(seq![one].drop_last() =~= Seq::empty());
    assert(long_choices(seq![one].drop_last(), current) =~= Seq::empty());
    if b.len() == 0 {
        assert(a + b =~= a);
        assert(long_choices(a, current) + long_choices(b, current) =~= long_choices(a, current));
    } else {
        law_long_options_are_offered(a, b.drop_last(), one, current);
        assert((a + b).drop_last() =~= a + b.drop_last());
        assert((a + b).last() == b.last());
        assert(long_choices(a + b, current) =~= long_choices(a, current) + long_choices(b, current));
    }
}

/// The short options that are offered are those that begin with what was typed, in
/// order, behind a dash and with the description of the option that they stand for.
pub proof fn law_short_options_are_offered(
    a: Seq<(Seq<char>, char)>,
    b: Seq<(Seq<char>, char)>,
    one: (Seq<char>, char),
    options: Seq<Field>,
    current: Seq<char>,
)
    ensures
        short_choices(a + b, options, current) == short_choices(a, options, current) + short_choices(b, options, current),
        current.is_prefix_of("-"@ + seq![one.1]) ==> short_choices(seq![one], options, current).len() == 1 && short_choices(seq![one], options, current)[0].value == "-"@ + seq![
            one.1,
        ] && !short_choices(seq![one], options, current)[0].no_space,
        current.is_prefix_of("-"@ + seq![one.1]) ==> forall|i: int|
            0 <= i < options.len() && (#[trigger] options[i]).name == one.0 && (forall|j: int|
                0 <= j < i ==> (#[trigger] options[j]).name != one.0) ==> short_choices(seq![one], options, current)[0].description
                == options[i].description,
        !current.is_prefix_of("-"@ + seq![one.1]) ==> short_choices(seq![one], options, current).len() == 0,
    decreases b.len(),
{
    reveal_with_fuel(short_choices, 2);
    assert("-"@ + seq![one.1] =~= "-"@.push(one.1));
    lemma_field_from(options, one.0, 0);
    assert(seq![one].drop_last() =~= Seq::empty());
    assert(short_choices(seq![one].drop_last(), options, current) =~= Seq::empty());
    if b.len() == 0 {
        assert(a + b =~= a);
        assert(short_choices(a, options, current) + short_choices(b, options, current) =~= short_choices(a, options, current));
    } else {
        law_short_options_are_offered(a, b.drop_last(), one, options, current);
        assert((a + b).drop_last() =~= a + b.drop_last());
        assert((a + b).last() == b.last());
        assert(short_choices(a + b, options, current) =~= short_choices(a, options, current) + short_choices(b, options, current));
    }
}

/// The values that are offered are those that begin with what was typed, in order.
pub proof fn law_values_are_offered(
    a: Seq<Seq<char>>,
    b: Seq<Seq<char>>,
    one: Seq<char>,
    current: Seq<char>,
)
    ensures
        value_choices(a + b, current) == value_choices(a, current) + value_choices(b, current),
        current.is_prefix_of(one) ==> value_choices(seq![one], current) == seq![
            Choice { value: one, description: None, no_space: false },
        ],
        !current.is_prefix_of(one) ==> value_choices(seq![one], current).len() == 0,
    decreases b.len(),
{
    reveal_with_fuel(value_choices, 2);
    assert(seq![one].drop_last() =~= Seq::empty());
    assert(value_choices(seq![one].drop_last(), current) =~= Seq::empty());
    if b.len() == 0 {
        assert(a + b =~= a);
        assert(value_choices(a, current) + value_choices(b, current) =~= value_choices(a, current));
    } else {
        law_values_are_offered(a, b.drop_last(), one, current);
        assert((a + b).drop_last() =~= a + b.drop_last());
        assert((a + b).last() == b.last());
        assert(value_choices(a + b, current) =~= value_choices(a, current) + value_choices(b, current));
    }
}

/// The first field of a name is the one that is found.
proof fn lemma_field_from(all: Seq<Field>, name: Seq<char>, from: nat)
    ensures
        field_from(all, name, from) is None ==> forall|j: int|
            from <= j < all.len() ==> (#[trigger] all[j]).name != name,
        forall|i: int|
            from <= i < all.len() && (#[trigger] all[i]).name == name && (forall|j: int|
                from <= j < i ==> (#[trigger] all[j]).name != name) ==> field_from(all, name, from)
                == Some(all[i]),
    decreases all.len() - from,
{
    if from < all.len() && all[from as int].name != name {
        lemma_field_from(all, name, from + 1);
    }
}

/// Dashed words and unknown words do not change where the words before the cursor lead.
/// A group leads to its commands, and a command to its options whatever follows.
pub proof fn law_words_lead_to_their_scope(
    commands: Seq<(Seq<char>, Node)>,
    leaf: Option<Leaf>,
    word: Seq<char>,
    rest: Seq<Seq<char>>,
)
    ensures
        scope(commands, leaf, Seq::empty()) == (commands, leaf),
        dashed(word) || lookup(commands, word) is None ==> scope(
            commands,
            leaf,
            seq![word] + rest,
        ) == scope(commands, leaf, rest),
        !dashed(word) ==> (lookup(commands, word) matches Some(entry) ==> {
            &&& entry.is_group ==> scope(commands, leaf, seq![word] + rest) == scope(
                entry.commands,
                None,
                rest,
            )
            &&& !entry.is_group ==> {
                let found = scope(commands, leaf, seq![word] + rest);
                &&& found.0 == commands
                &&& found.1 matches Some(l)
                &&& l.options == entry.options
                &&& l.aliases == entry.aliases
            }
        }),
{
    assert((seq![word] + rest).skip(1) =~= rest);
    assert((seq![word] + rest)[0] == word);
}

/// At a dash the options of the command are offered; behind an option with listed values
/// its values, behind any other option that takes a value nothing, and elsewhere the
/// commands.
pub proof fn law_offers_fit_the_cursor(
    commands: Seq<(Seq<char>, Node)>,
    root: Option<Leaf>,
    before: Seq<Seq<char>>,
    prev: Seq<char>,
    current: Seq<char>,
    i: int,
)
    requires
        scope(commands, root, before.push(prev)).1 is Some,
        0 <= i < (scope(commands, root, before.push(prev)).1->0).options.len(),
        ({
            let options = (scope(commands, root, before.push(prev)).1->0).options;
            forall|j: int|
                0 <= j < options.len() && (#[trigger] options[j]).name == options[i].name ==> j == i
        }),
    ensures
        ({
            let (below, found) = scope(commands, root, before.push(prev));
            let leaf = found->0;
            let option = leaf.options[i];
            let offers = completed(
                commands,
                root,
                before.push(prev).push(current),
                (before.len() + 1) as nat,
            );
            &&& dashed(current) ==> offers == long_choices(leaf.options, current) + short_choices(
                leaf.aliases,
                leaf.options,
                current,
            )
            &&& !dashed(current) && prev == "--"@ + option.name && recased(option.name, '-', '_')
                == option.name ==> {
                &&& option.kind matches Kind::Enum(values) ==> offers == value_choices(
                    values,
                    current,
                )
                &&& option.kind is Boolean || option.kind is Count ==> offers == command_choices(
                    below,
                    current,
                )
                &&& !(option.kind is Enum) && !(option.kind is Boolean) && !(option.kind is Count)
                    ==> offers.len() == 0
            }
            &&& !dashed(current) && !dashed(prev) ==> offers == command_choices(below, current)
        }),
{
    let argv = before.push(prev).push(current);
    let index = (before.len() + 1) as nat;
    assert(argv.take(index as int) =~= before.push(prev));
    let leaf = scope(commands, root, before.push(prev)).1->0;
    let option = leaf.options[i];
    lemma_field_from(leaf.options, option.name, 0);
    reveal_strlit("--");
    reveal_strlit("-");
    if prev == "--"@ + option.name {
        assert(prev.subrange(0, 2) =~= "--"@);
        assert(prev.skip(2) =~= option.name);
    }
    if !dashed(prev) {
        if "--"@.is_prefix_of(prev) {
            assert(prev.subrange(0, 1) =~= "-"@);
        }
    }
}

/// Each shell gets the choices in its own form: every choice shows its value, and where
/// the shell can show one, its description.
pub proof fn law_choices_are_shown(c: Choice)
    ensures
        c.no_space ==> shell_text(Shell::Bash, c) == c.value + "\u{1}"@,
        !c.no_space ==> shell_text(Shell::Bash, c) == c.value,
        c.description is None ==> shell_text(Shell::Fish, c) == c.value,
        c.description matches Some(d) ==> shell_text(Shell::Fish, c) == c.value + "\t"@ + d,
        c.description is None ==> shell_text(Shell::Zsh, c) == replaced(c.value, ":"@, "\\:"@),
        c.description matches Some(d) ==> (":"@ + d).is_suffix_of(shell_text(Shell::Zsh, c)),
        ("{\"value\":"@ + quoted(c.value)).is_prefix_of(shell_text(Shell::Nushell, c)),
        c.description matches Some(d) ==> (",\"description\":"@ + quoted(d) + "}"@).is_suffix_of(
            shell_text(Shell::Nushell, c),
        ),
        c.description is None ==> shell_text(Shell::Nushell, c) == "{\"value\":"@ + quoted(c.value)
            + "}"@,
{
    let lead = "{\"value\":"@ + quoted(c.value);
    let text = shell_text(Shell::Nushell, c);
    assert(text.subrange(0, lead.len() as int) =~= lead);
    if let Some(d) = c.description {
        let zsh = shell_text(Shell::Zsh, c);
        let tail = ":"@ + d;
        assert(zsh.subrange(zsh.len() - tail.len(), zsh.len() as int) =~= tail);
        let end = ",\"description\":"@ + quoted(d) + "}"@;
        assert(text.subrange(text.len() - end.len(), text.len() as int) =~= end);
    }
}

/// A further choice stands behind the others, with the separator of the shell between.
pub proof fn law_choices_are_separated(all: Seq<Choice>, c: Choice)
    requires
        all.len() > 0,
    ensures
        formatted(Shell::Bash, all.push(c)) == formatted(Shell::Bash, all) + "\u{b}"@ + shell_text(
            Shell::Bash,
            c,
        ),
        formatted(Shell::Zsh, all.push(c)) == formatted(Shell::Zsh, all) + "\n"@ + shell_text(
            Shell::Zsh,
            c,
        ),
        formatted(Shell::Fish, all.push(c)) == formatted(Shell::Fish, all) + "\n"@ + shell_text(
            Shell::Fish,
            c,
        ),
        formatted(Shell::Bash, seq![c]) == shell_text(Shell::Bash, c),
        formatted(Shell::Zsh, seq![c]) == shell_text(Shell::Zsh, c),
        formatted(Shell::Fish, seq![c]) == shell_text(Shell::Fish, c),
        formatted(Shell::Nushell, seq![c]) == "["@ + shell_text(Shell::Nushell, c) + "]"@,
{
    lemma_shown_push(Shell::Bash, all, c);
    lemma_shown_push(Shell::Zsh, all, c);
    lemma_shown_push(Shell::Fish, all, c);
}

proof fn lemma_shown_push(shell: Shell, all: Seq<Choice>, c: Choice)
    ensures
        all.push(c).map_values(|c: Choice| shell_text(shell, c)) == all.map_values(
            |c: Choice| shell_text(shell, c),
        ).push(shell_text(shell, c)),
        all.push(c).map_values(|c: Choice| shell_text(shell, c)).drop_last() == all.map_values(
            |c: Choice| shell_text(shell, c),
        ),
{
    let longer = all.push(c).map_values(|c: Choice| shell_text(shell, c));
    let parts = all.map_values(|c: Choice| shell_text(shell, c));
    assert(longer =~= parts.push(shell_text(shell, c)));
    assert(longer.drop_last() =~= parts);
}

/// The script of a shell calls the command line by its name, with the name of the shell.
pub proof fn law_scripts_name_the_command(name: Seq<char>)
    ensures
        (" "@ + name).is_suffix_of(script(Shell::Bash, name)),
        (" "@ + name).is_suffix_of(script(Shell::Zsh, name)),
        ("#compdef "@ + name).is_prefix_of(script(Shell::Zsh, name)),
        ("complete --keep-order --exclusive --command "@ + name).is_prefix_of(
            script(Shell::Fish, name),
        ),
        ("# External completer for "@ + name).is_prefix_of(script(Shell::Nushell, name)),
        ("_incur_complete_"@ + identifier(name)).is_prefix_of(script(Shell::Bash, name)),
{
    let tail = " "@ + name;
    let bash = script(Shell::Bash, name);
    let zsh = script(Shell::Zsh, name);
    assert(bash.subrange(bash.len() - tail.len(), bash.len() as int) =~= tail);
    assert(zsh.subrange(zsh.len() - tail.len(), zsh.len() as int) =~= tail);
    let a = "#compdef "@ + name;
    assert(zsh.subrange(0, a.len() as int) =~= a);
    let b = "complete --keep-order --exclusive --command "@ + name;
    assert(script(Shell::Fish, name).subrange(0, b.len() as int) =~= b);
    let c = "# External completer for "@ + name;
    assert(script(Shell::Nushell, name).subrange(0, c.len() as int) =~= c);
    let d = "_incur_complete_"@ + identifier(name);
    assert(bash.subrange(0, d.len() as int) =~= d);
}

} // verus!
