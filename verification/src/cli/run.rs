//! What a command line asks for.

use vstd::prelude::*;
use crate::cli::builder::Cli;
use crate::cli::builtins::{
    all_of, builtin_command_index, builtin_commands, builtin_index, builtins, completions_builtin,
    mcp_builtin, skills_builtin, subs, Builtin, BuiltinCommand, Sub,
};
use crate::cli::collect::{any_required, doctor_report, has_required_args, mcp_doctor_result};
use crate::cli::completing::{
    completion_answer, completion_nodes, completion_output, registration, root_completion, scripts,
};
use crate::cli::cta::{
    block_json, block_lines, cta_value, format_human_cta, format_human_error, human_error,
    suggestions, FormattedCta, FormattedCtaBlock,
};
use crate::cli::flags::{extract_builtin_flags, no_flags, scanned, BuiltinFlags, Flags};
use crate::cli::pages::{
    below_banner, builtin_page, builtin_sub_page, command_help, completions_page, config_flag,
    format_builtin_help, format_builtin_subcommand_help, format_command_help,
    format_completions_help, front_page, group_page, leaf_page, make_front_page, make_group_page,
    make_leaf_page, make_missing_page, missing_page, one_piece, push_piece, shown, with_banner,
    Piece, Shown,
};
use crate::cli::report::{refusal, refuse};
use crate::cli::suggest::{suggest, suggested};
use crate::cli::tree::{
    candidates_at_path, extend, holds_text, level, names_at, path_names, policy_or, resolve_command,
    resolved, says, texts_from, ResolvedCommand, Target,
};
use crate::cli::warnings::{all_warnings, deprecation_warnings};
use crate::command::CommandDef;
use crate::completions::{shell_named, Shell};
use crate::output::{Format, OutputPolicy};
use crate::schema::fields;
use crate::table::keyed;
use crate::text::{
    cat, cat3, chars_of, copy_opt, find_char, find_char_from, join, join_texts,
    lemma_find_char_from, opt_str, opt_text, parse_usize, parsed_up_to, same, starts_with, text_of,
    texts,
};
use crate::value::{
    lemma_collected_push, lemma_object_view, new_object, object, put, string_value, Json, Value,
};

verus! {

/// What a command line asks for.
pub enum Step<'a> {
    /// Show something and end.
    Done {
        /// What is shown.
        pieces: Vec<Piece>,
        /// The exit code, where it is not that of success.
        code: Option<i32>,
    },
    /// Show the manifest of the commands.
    Manifest {
        /// Whether the manifest holds schemas and examples.
        full: bool,
        /// The format.
        format: Format,
    },
    /// Show the skill file of the whole command line.
    SkillFile,
    /// Show the index of the commands.
    SkillIndex,
    /// Serve MCP.
    ServeMcp {
        /// The version that the server reports.
        version: String,
    },
    /// List the skills and whether they are installed.
    ListSkills,
    /// Sync the skill files.
    SyncSkills {
        /// Grouping depth for skill files.
        depth: usize,
        /// Whether to install globally.
        global: bool,
    },
    /// Register as MCP server.
    RegisterMcp {
        /// Command that agents run, where it is not the default.
        command: Option<String>,
        /// Agents to register with, where they are not all.
        agents: Option<Vec<String>>,
        /// Whether to register globally.
        global: bool,
    },
    /// Show the schema of the config file.
    ConfigSchema,
    /// Show the schema of a command.
    Schema {
        /// The command.
        command: &'a CommandDef,
        /// The format.
        format: Format,
    },
    /// Hand a request to a fetch gateway.
    Fetch {
        /// Number of the fetch handler.
        handler: usize,
        /// Path of the gateway.
        path: String,
        /// Curl-style arguments.
        rest: Vec<String>,
        /// Base path prefix for request URLs.
        base_path: Option<String>,
        /// The format.
        format: Format,
        /// Whether the answer is shown.
        render: bool,
    },
    /// Run a command.
    Run {
        /// The command.
        command: &'a CommandDef,
        /// Path of the command.
        path: String,
        /// Arguments.
        rest: Vec<String>,
        /// Middleware, the outermost first.
        middleware: Vec<usize>,
        /// The format.
        format: Format,
        /// Whether the output is shown.
        render: bool,
        /// Warnings about deprecated options.
        warnings: Vec<String>,
    },
}

/// What a [`Step`] means.
pub enum Decision {
    /// Show something and end.
    Done(Seq<Shown>, Option<i32>),
    /// Show the manifest of the commands.
    Manifest(bool, Format),
    /// Show the skill file of the whole command line.
    SkillFile,
    /// Show the index of the commands.
    SkillIndex,
    /// Serve MCP.
    ServeMcp(Seq<char>),
    /// List the skills and whether they are installed.
    ListSkills,
    /// Sync the skill files: depth, and whether to install globally.
    SyncSkills(nat, bool),
    /// Register as MCP server: command, agents, and whether to register globally.
    RegisterMcp(Option<Seq<char>>, Option<Seq<Seq<char>>>, bool),
    /// Show the schema of the config file.
    ConfigSchema,
    /// Show the schema of a command.
    Schema(CommandDef, Format),
    /// Hand a request to a fetch gateway.
    Fetch {
        /// Number of the fetch handler.
        handler: usize,
        /// Path of the gateway.
        path: Seq<char>,
        /// Curl-style arguments.
        rest: Seq<Seq<char>>,
        /// Base path prefix for request URLs.
        base_path: Option<Seq<char>>,
        /// The format.
        format: Format,
        /// Whether the answer is shown.
        render: bool,
    },
    /// Run a command.
    Run {
        /// The command.
        command: CommandDef,
        /// Path of the command.
        path: Seq<char>,
        /// Arguments.
        rest: Seq<Seq<char>>,
        /// Middleware, the outermost first.
        middleware: Seq<usize>,
        /// The format.
        format: Format,
        /// Whether the output is shown.
        render: bool,
        /// Warnings about deprecated options.
        warnings: Seq<Seq<char>>,
    },
}

impl<'a> View for Step<'a> {
    type V = Decision;

    open spec fn view(&self) -> Decision {
        match *self {
            Step::Done { pieces, code } => Decision::Done(shown(pieces@), code),
            Step::Manifest { full, format } => Decision::Manifest(full, format),
            Step::SkillFile => Decision::SkillFile,
            Step::SkillIndex => Decision::SkillIndex,
            Step::ServeMcp { version } => Decision::ServeMcp(version@),
            Step::ListSkills => Decision::ListSkills,
            Step::SyncSkills { depth, global } => Decision::SyncSkills(depth as nat, global),
            Step::RegisterMcp { command, agents, global } => Decision::RegisterMcp(
                opt_text(command),
                match agents {
                    Some(v) => Some(texts(v@)),
                    None => None,
                },
                global,
            ),
            Step::ConfigSchema => Decision::ConfigSchema,
            Step::Schema { command, format } => Decision::Schema(*command, format),
            Step::Fetch { handler, path, rest, base_path, format, render } => Decision::Fetch {
                handler,
                path: path@,
                rest: texts(rest@),
                base_path: opt_text(base_path),
                format,
                render,
            },
            Step::Run { command, path, rest, middleware, format, render, warnings } => {
                Decision::Run {
                    command: *command,
                    path: path@,
                    rest: texts(rest@),
                    middleware: middleware@,
                    format,
                    render,
                    warnings: texts(warnings@),
                }
            },
        }
    }
}

/// Showing one piece and ending well.
pub open spec fn shows(piece: Shown) -> Decision {
    Decision::Done(Seq::empty().push(piece), None)
}

/// Showing one text and ending with a failure.
pub open spec fn fails(text: Seq<char>) -> Decision {
    Decision::Done(Seq::empty().push(Shown::Text(text)), Some(1))
}

fn show<'a>(piece: Piece) -> (r: Step<'a>)
    ensures
        r@ == shows(piece@),
{
    let pieces = one_piece(piece);
    assert(shown(pieces@) =~= Seq::empty().push(piece@));
    Step::Done { pieces, code: None }
}

fn fail<'a>(text: String) -> (r: Step<'a>)
    ensures
        r@ == fails(text@),
{
    let piece = Piece::Text(text);
    let pieces = one_piece(piece);
    assert(shown(pieces@) =~= Seq::empty().push(piece@));
    Step::Done { pieces, code: Some(1) }
}

// ---------------------------------------------------------------------------
// Reading the built-in flags
// ---------------------------------------------------------------------------

/// Reads the built-in flags of a command line. Where they are wrong, gives what is
/// shown and the exit code.
pub fn read_flags(cli: &Cli, argv: &Vec<String>, human: bool) -> (r: Result<
    BuiltinFlags,
    (Vec<Piece>, Option<i32>),
>)
    ensures
        match scanned(texts(argv@), config_flag(*cli), no_flags()) {
            Ok(flags) => r matches Ok(builtin) && builtin@ == flags,
            Err(message) => r matches Err(end) && Decision::Done(shown(end.0@), end.1) == fails(
                refusal(human, "UNKNOWN"@, message),
            ),
        },
{
    let flag = match &cli.config {
        Some(config) => Some(config.flag.as_str()),
        None => None,
    };
    match extract_builtin_flags(argv, flag) {
        Ok(builtin) => Ok(builtin),
        Err(message) => Err(refuse(human, "UNKNOWN", message.as_str())),
    }
}

// ---------------------------------------------------------------------------
// Flags that are answered without a command
// ---------------------------------------------------------------------------

/// The version that an MCP server reports.
pub open spec fn served_version(cli: Cli) -> Seq<char> {
    match cli.version {
        Some(v) => v@,
        None => "0.0.0"@,
    }
}

/// What the flags ask for where they ask for something about the command line
/// as a whole.
pub open spec fn overall(cli: Cli, flags: Flags) -> Option<Decision> {
    if flags.switches.version && !flags.switches.help && cli.version is Some {
        Some(shows(Shown::Text(cli.version->0@)))
    } else if flags.switches.llms || flags.switches.llms_full {
        if flags.format_explicit && flags.format != Format::Markdown {
            Some(Decision::Manifest(flags.switches.llms_full, flags.format))
        } else if flags.switches.llms_full {
            Some(Decision::SkillFile)
        } else {
            Some(Decision::SkillIndex)
        }
    } else if flags.switches.mcp {
        Some(Decision::ServeMcp(served_version(cli)))
    } else {
        None
    }
}

/// What an optional step means.
pub open spec fn opt_step(s: Option<Step>) -> Option<Decision> {
    match s {
        Some(x) => Some(x@),
        None => None,
    }
}

fn overall_step<'a>(cli: &'a Cli, builtin: &BuiltinFlags) -> (r: Option<Step<'a>>)
    ensures
        opt_step(r) == overall(*cli, builtin@),
{
    if builtin.version && !builtin.help {
        if let Some(v) = &cli.version {
            return Some(show(Piece::Text(v.clone())));
        }
    }
    if builtin.llms || builtin.llms_full {
        if builtin.format_explicit && builtin.format != Format::Markdown {
            return Some(Step::Manifest { full: builtin.llms_full, format: builtin.format });
        }
        if builtin.llms_full {
            return Some(Step::SkillFile);
        }
        return Some(Step::SkillIndex);
    }
    if builtin.mcp {
        let version = match &cli.version {
            Some(v) => v.clone(),
            None => "0.0.0".to_string(),
        };
        return Some(Step::ServeMcp { version });
    }
    None
}

/// The answer to a shell that asks for completions.
pub open spec fn completion_text(
    cli: Cli,
    argv: Seq<Seq<char>>,
    shell: Option<Seq<char>>,
    index: Option<Seq<char>>,
) -> Option<Seq<char>> {
    match shell {
        Some(name) => match shell_named(name) {
            Some(shell) => Some(
                completion_answer(
                    cli.name@,
                    texts(cli.aliases@),
                    completion_nodes(
                        cli.commands@,
                        fields(cli.globals_fields@),
                        keyed(cli.global_aliases@),
                    ),
                    root_completion(
                        match cli.root_command {
                            Some(def) => Some(&def),
                            None => None,
                        },
                        fields(cli.globals_fields@),
                        keyed(cli.global_aliases@),
                    ),
                    argv,
                    shell,
                    index,
                ),
            ),
            None => None,
        },
        None => None,
    }
}

fn completion_for(
    cli: &Cli,
    argv: &Vec<String>,
    complete_shell: Option<&str>,
    complete_index: Option<&str>,
) -> (r: Option<String>)
    ensures
        opt_text(r) == completion_text(
            *cli,
            texts(argv@),
            opt_str(complete_shell),
            opt_str(complete_index),
        ),
{
    let root = match &cli.root_command {
        Some(def) => Some(def),
        None => None,
    };
    completion_output(
        cli.name.as_str(),
        &cli.aliases,
        &cli.commands,
        root,
        &cli.globals_fields,
        &cli.global_aliases,
        argv,
        complete_shell,
        complete_index,
    )
}

// ---------------------------------------------------------------------------
// Built-in commands
// ---------------------------------------------------------------------------

/// The word at a position.
pub open spec fn word(words: Seq<Seq<char>>, i: int) -> Option<Seq<char>> {
    if 0 <= i < words.len() {
        Some(words[i])
    } else {
        None
    }
}

/// What `completions` asks for.
pub open spec fn completions_decision(cli: Cli, flags: Flags, index: int) -> Decision {
    match word(flags.rest, index + 1) {
        Some(name) if !flags.switches.help => match shell_named(name) {
            Some(shell) => shows(Shown::Text(scripts(shell, cli.name@, texts(cli.aliases@)))),
            None => fails(
                human_error(
                    "INVALID_SHELL"@,
                    "Unknown shell '"@ + name + "'. Supported: bash, fish, nushell, zsh"@,
                ),
            ),
        },
        _ => shows(completions_page(cli.name@, completions_builtin(cli.name@))),
    }
}

fn completions_step<'a>(cli: &'a Cli, builtin: &BuiltinFlags, index: usize) -> (r: Step<'a>)
    requires
        index < builtin.rest.len(),
    ensures
        r@ == completions_decision(*cli, builtin@, index as int),
{
    let ghost words = texts(builtin.rest@);
    if builtin.help || index + 1 >= builtin.rest.len() {
        let all = builtin_commands(cli.name.as_str());
        assert(all_of(all@).len() == all@.len());
        assert(all_of(all@)[0] == all@[0]@);
        return show(format_completions_help(cli.name.as_str(), &all[0]));
    }
    let name = builtin.rest[index + 1].as_str();
    assert(words[index + 1] == name@);
    match Shell::from_str(name) {
        Some(shell) => show(
            Piece::Text(registration(shell, cli.name.as_str(), &cli.aliases)),
        ),
        None => {
            let message = cat3(
                "Unknown shell '",
                name,
                "'. Supported: bash, fish, nushell, zsh",
            );
            fail(format_human_error("INVALID_SHELL", message.as_str()))
        },
    }
}

/// The first subcommand that a word names or is an alias of.
pub open spec fn sub_answering(all: Seq<Sub>, name: Seq<char>, from: nat) -> Option<nat>
    decreases all.len() - from,
{
    if from >= all.len() {
        None
    } else if all[from as int].name == name || all[from as int].aliases.contains(name) {
        Some(from)
    } else {
        sub_answering(all, name, from + 1)
    }
}

/// The name of the subcommand that a word stands for, and the word itself where
/// it stands for none.
pub open spec fn sub_name(builtin: Builtin, name: Seq<char>) -> Seq<char> {
    match sub_answering(builtin.subcommands, name, 0) {
        Some(i) => builtin.subcommands[i as int].name,
        None => name,
    }
}

fn subcommand_name(builtin: &BuiltinCommand, name: &str) -> (r: String)
    ensures
        r@ == sub_name(builtin@, name@),
{
    let ghost all = subs(builtin.subcommands@);
    let mut i: usize = 0;
    while i < builtin.subcommands.len()
        invariant
            i <= builtin.subcommands@.len(),
            all == subs(builtin.subcommands@),
            all == builtin@.subcommands,
            sub_answering(all, name@, 0) == sub_answering(all, name@, i as nat),
        decreases builtin.subcommands.len() - i,
    {
        assert(all[i as int] == builtin.subcommands@[i as int]@);
        if same(builtin.subcommands[i].name.as_str(), name) || holds_text(
            &builtin.subcommands[i].aliases,
            name,
        ) {
            return builtin.subcommands[i].name.clone();
        }
        i += 1;
    }
    name.to_string()
}

/// The first position of a word.
pub open spec fn position(words: Seq<Seq<char>>, text: Seq<char>, from: nat) -> Option<nat>
    decreases words.len() - from,
{
    if from >= words.len() {
        None
    } else if words[from as int] == text {
        Some(from)
    } else {
        position(words, text, from + 1)
    }
}

/// The first position of a word with the given start.
pub open spec fn position_starting(words: Seq<Seq<char>>, start: Seq<char>, from: nat) -> Option<nat>
    decreases words.len() - from,
{
    if from >= words.len() {
        None
    } else if start.is_prefix_of(words[from as int]) {
        Some(from)
    } else {
        position_starting(words, start, from + 1)
    }
}

/// The part of a text behind the first `=`.
pub open spec fn after_equals(s: Seq<char>) -> Option<Seq<char>> {
    match find_char_from(s, '=', 0) {
        Some(i) => Some(s.skip(i as int + 1)),
        None => None,
    }
}

/// A number, or 1 where the text is no number.
pub open spec fn number_or_one(s: Option<Seq<char>>) -> nat {
    match s {
        Some(text) => match parsed_up_to(text, usize::MAX as nat) {
            Some(n) => n,
            None => 1,
        },
        None => 1,
    }
}

/// The depth that words give: behind `--depth`, or else in a word that begins
/// with `--depth=`.
pub open spec fn depth_of(words: Seq<Seq<char>>) -> nat {
    match position(words, "--depth"@, 0) {
        Some(i) => number_or_one(word(words, i as int + 1)),
        None => match position_starting(words, "--depth="@, 0) {
            Some(i) => number_or_one(after_equals(words[i as int])),
            None => 1,
        },
    }
}

fn parse_or_one(text: &str) -> (r: usize)
    ensures
        r as nat == number_or_one(Some(text@)),
{
    match parse_usize(text) {
        Some(n) => n,
        None => 1,
    }
}

fn find_word(words: &Vec<String>, text: &str) -> (r: Option<usize>)
    ensures
        match r {
            Some(i) => position(texts(words@), text@, 0) == Some(i as nat) && i < words@.len(),
            None => position(texts(words@), text@, 0) is None,
        },
{
    let ghost all = texts(words@);
    let mut i: usize = 0;
    while i < words.len()
        invariant
            i <= words@.len(),
            all == texts(words@),
            position(all, text@, 0) == position(all, text@, i as nat),
        decreases words.len() - i,
    {
        assert(all[i as int] == words@[i as int]@);
        if same(words[i].as_str(), text) {
            return Some(i);
        }
        i += 1;
    }
    None
}

fn depth_from(words: &Vec<String>) -> (r: usize)
    ensures
        r as nat == depth_of(texts(words@)),
{
    let ghost all = texts(words@);
    if let Some(i) = find_word(words, "--depth") {
        if i < words.len() - 1 {
            assert(all[i + 1] == words@[i + 1]@);
            return parse_or_one(words[i + 1].as_str());
        }
        return 1;
    }
    let mut i: usize = 0;
    while i < words.len()
        invariant
            i <= words@.len(),
            all == texts(words@),
            position(all, "--depth"@, 0) is None,
            position_starting(all, "--depth="@, 0) == position_starting(
                all,
                "--depth="@,
                i as nat,
            ),
        decreases words.len() - i,
    {
        assert(all[i as int] == words@[i as int]@);
        if starts_with(words[i].as_str(), "--depth=") {
            let x = chars_of(words[i].as_str());
            proof {
                lemma_find_char_from(x@, '=', 0);
            }
            if let Some(at) = find_char(&x, '=', 0) {
                assert(x@.subrange(at + 1, x@.len() as int) =~= x@.skip(at + 1));
                return parse_or_one(text_of(&x, at + 1, x.len()).as_str());
            }
            return 1;
        }
        i += 1;
    }
    1
}

/// The words behind a subcommand of a built-in command.
pub open spec fn behind(words: Seq<Seq<char>>, index: int) -> Seq<Seq<char>> {
    words.skip(index + 2)
}

/// What `skills` asks for.
pub open spec fn skills_decision(cli: Cli, flags: Flags, index: int) -> Decision {
    let builtin = skills_builtin();
    match word(flags.rest, index + 1) {
        Some(token) => {
            let name = sub_name(builtin, token);
            if name == "list"@ {
                if flags.switches.help {
                    shows(builtin_sub_page(cli.name@, builtin, "list"@))
                } else {
                    Decision::ListSkills
                }
            } else if name != "add"@ {
                shows(builtin_page(cli.name@, builtin))
            } else if flags.switches.help {
                shows(builtin_sub_page(cli.name@, builtin, "add"@))
            } else {
                let rest = behind(flags.rest, index);
                Decision::SyncSkills(depth_of(rest), !rest.contains("--no-global"@))
            }
        },
        None => shows(builtin_page(cli.name@, builtin)),
    }
}

fn skills_step<'a>(cli: &'a Cli, builtin: &BuiltinFlags, index: usize) -> (r: Step<'a>)
    requires
        index < builtin.rest.len(),
    ensures
        r@ == skills_decision(*cli, builtin@, index as int),
{
    let ghost words = texts(builtin.rest@);
    let all = builtin_commands(cli.name.as_str());
    assert(all_of(all@).len() == all@.len());
    assert(all_of(all@)[2] == all@[2]@);
    let def = &all[2];
    if index + 1 >= builtin.rest.len() {
        return show(format_builtin_help(cli.name.as_str(), def));
    }
    let token = builtin.rest[index + 1].as_str();
    assert(words[index + 1] == token@);
    let name = subcommand_name(def, token);
    if same(name.as_str(), "list") {
        if builtin.help {
            return show(format_builtin_subcommand_help(cli.name.as_str(), def, "list"));
        }
        return Step::ListSkills;
    }
    if !same(name.as_str(), "add") {
        return show(format_builtin_help(cli.name.as_str(), def));
    }
    if builtin.help {
        return show(format_builtin_subcommand_help(cli.name.as_str(), def, "add"));
    }
    let rest = texts_from(&builtin.rest, index + 2);
    Step::SyncSkills { depth: depth_from(&rest), global: !holds_text(&rest, "--no-global") }
}

/// The command and the agents that words from `from` on give, behind those
/// already found: the last command counts, and every agent.
pub open spec fn registration_words(
    words: Seq<Seq<char>>,
    from: nat,
    command: Option<Seq<char>>,
    agents: Seq<Seq<char>>,
) -> (Option<Seq<char>>, Seq<Seq<char>>)
    decreases words.len() - from,
{
    if from >= words.len() {
        (command, agents)
    } else if from + 1 < words.len() && (words[from as int] == "--command"@ || words[from as int]
        == "-c"@) {
        registration_words(words, from + 2, Some(words[from as int + 1]), agents)
    } else if from + 1 < words.len() && words[from as int] == "--agent"@ {
        registration_words(words, from + 2, command, agents.push(words[from as int + 1]))
    } else {
        registration_words(words, from + 1, command, agents)
    }
}

/// What `mcp` asks for.
pub open spec fn mcp_decision(cli: Cli, flags: Flags, index: int) -> Decision {
    let builtin = mcp_builtin();
    match word(flags.rest, index + 1) {
        Some(token) => {
            let name = sub_name(builtin, token);
            if flags.switches.help {
                shows(builtin_sub_page(cli.name@, builtin, name))
            } else if name == "doctor"@ {
                shows(Shown::Data(doctor_report(cli.commands@, cli.mcp_options.tools), flags.format))
            } else if name != "add"@ {
                shows(builtin_page(cli.name@, builtin))
            } else {
                let rest = behind(flags.rest, index);
                let (command, agents) = registration_words(rest, 0, None, Seq::empty());
                Decision::RegisterMcp(
                    command,
                    if agents.len() == 0 {
                        None
                    } else {
                        Some(agents)
                    },
                    !rest.contains("--no-global"@),
                )
            }
        },
        None => shows(builtin_page(cli.name@, builtin)),
    }
}

fn scan_registration(rest: &Vec<String>) -> (r: (Option<String>, Vec<String>))
    ensures
        (opt_text(r.0), texts(r.1@)) == registration_words(
            texts(rest@),
            0,
            None,
            Seq::empty(),
        ),
{
    let ghost words = texts(rest@);
    let mut command: Option<String> = None;
    let mut agents: Vec<String> = Vec::new();
    let mut cursor: usize = 0;
    assert(texts(agents@) =~= Seq::<Seq<char>>::empty());
    while cursor < rest.len()
        invariant
            cursor <= rest@.len(),
            words == texts(rest@),
            registration_words(words, 0, None, Seq::empty()) == registration_words(
                words,
                cursor as nat,
                opt_text(command),
                texts(agents@),
            ),
        decreases rest.len() - cursor,
    {
        assert(words[cursor as int] == rest@[cursor as int]@);
        let more = cursor < rest.len() - 1;
        if more && (same(rest[cursor].as_str(), "--command") || same(rest[cursor].as_str(), "-c")) {
            assert(words[cursor + 1] == rest@[cursor + 1]@);
            command = Some(rest[cursor + 1].clone());
            cursor += 2;
        } else if more && same(rest[cursor].as_str(), "--agent") {
            assert(words[cursor + 1] == rest@[cursor + 1]@);
            let ghost was = texts(agents@);
            agents.push(rest[cursor + 1].clone());
            assert(texts(agents@) =~= was.push(words[cursor + 1]));
            cursor += 2;
        } else {
            cursor += 1;
        }
    }
    (command, agents)
}

fn mcp_step<'a>(cli: &'a Cli, builtin: &BuiltinFlags, index: usize) -> (r: Step<'a>)
    requires
        index < builtin.rest.len(),
    ensures
        r@ == mcp_decision(*cli, builtin@, index as int),
{
    let ghost words = texts(builtin.rest@);
    let all = builtin_commands(cli.name.as_str());
    assert(all_of(all@).len() == all@.len());
    assert(all_of(all@)[1] == all@[1]@);
    let def = &all[1];
    if index + 1 >= builtin.rest.len() {
        return show(format_builtin_help(cli.name.as_str(), def));
    }
    let token = builtin.rest[index + 1].as_str();
    assert(words[index + 1] == token@);
    let name = subcommand_name(def, token);
    if builtin.help {
        return show(format_builtin_subcommand_help(cli.name.as_str(), def, name.as_str()));
    }
    if same(name.as_str(), "doctor") {
        return show(
            Piece::Data {
                value: mcp_doctor_result(&cli.commands, &cli.mcp_options.tools),
                format: builtin.format,
            },
        );
    }
    if !same(name.as_str(), "add") {
        return show(format_builtin_help(cli.name.as_str(), def));
    }
    let rest = texts_from(&builtin.rest, index + 2);
    let (command, agents) = scan_registration(&rest);
    let global = !holds_text(&rest, "--no-global");
    let chosen: Option<Vec<String>> = if agents.len() == 0 {
        None
    } else {
        Some(agents)
    };
    Step::RegisterMcp { command, agents: chosen, global }
}

// ---------------------------------------------------------------------------
// Commands
// ---------------------------------------------------------------------------

/// What the words of a command line lead to: the command line's own command or
/// its help where there are none.
pub open spec fn target(cli: Cli, words: Seq<Seq<char>>) -> Target {
    if words.len() == 0 {
        match cli.root_command {
            Some(def) => Target::Leaf {
                command: def,
                path: seq![cli.name@],
                rest: Seq::empty(),
                middleware: Seq::empty(),
                policy: None,
            },
            None => Target::Help {
                path: seq![cli.name@],
                description: opt_text(cli.description),
                commands: cli.commands,
            },
        }
    } else {
        resolved(cli.commands@, words)
    }
}

fn resolve_target<'a>(cli: &'a Cli, words: &Vec<String>) -> (r: ResolvedCommand<'a>)
    ensures
        says(r, target(*cli, texts(words@))),
{
    if words.len() > 0 {
        return resolve_command(&cli.commands, words);
    }
    assert(join(seq![cli.name@], " "@) == cli.name@);
    match &cli.root_command {
        Some(def) => {
            let rest: Vec<String> = Vec::new();
            let collected_middleware: Vec<usize> = Vec::new();
            assert(texts(rest@) =~= Seq::empty());
            assert(collected_middleware@ =~= Seq::empty());
            ResolvedCommand::Leaf {
                command: def,
                path: cli.name.clone(),
                rest,
                collected_middleware,
                output_policy: None,
            }
        },
        None => ResolvedCommand::Help {
            path: cli.name.clone(),
            description: copy_opt(&cli.description),
            commands: &cli.commands,
        },
    }
}

/// What is shown where help is asked for.
pub open spec fn help_decision(cli: Cli, target: Target, human: bool) -> Decision {
    match target {
        Target::Leaf { command, path, .. } => {
            let page = leaf_page(cli, command, join(path, " "@));
            if join(path, " "@) == cli.name@ {
                Decision::Done(below_banner(cli.banner, human, page), None)
            } else {
                shows(page)
            }
        },
        Target::Help { path, description, commands } => {
            if join(path, " "@) == cli.name@ {
                Decision::Done(
                    below_banner(
                        cli.banner,
                        human,
                        if cli.root_command is Some && commands@.len() > 0 {
                            command_help(cli, cli.root_command->0, commands@)
                        } else {
                            group_page(cli, cli.name@, description, commands@, true)
                        },
                    ),
                    None,
                )
            } else {
                shows(group_page(cli, join(path, " "@), description, commands@, true))
            }
        },
        Target::Gateway { path, .. } => shows(
            Shown::Text(
                cli.name@ + " "@ + join(path, " "@)
                    + ": fetch gateway (use curl-style arguments)"@,
            ),
        ),
        Target::Missing { path, .. } => shows(missing_page(cli, join(path, " "@))),
    }
}

fn help_step<'a>(cli: &'a Cli, resolved: &ResolvedCommand<'a>, human: bool) -> (r: Step<'a>)
    ensures
        forall|t: Target| says(*resolved, t) ==> r@ == #[trigger] help_decision(*cli, t, human),
{
    match resolved {
        ResolvedCommand::Leaf { command, path, .. } => {
            let page = make_leaf_page(cli, command, path.as_str());
            if same(path.as_str(), cli.name.as_str()) {
                Step::Done { pieces: with_banner(cli.banner, human, page), code: None }
            } else {
                show(page)
            }
        },
        ResolvedCommand::Help { path, description, commands } => {
            if same(path.as_str(), cli.name.as_str()) {
                let mut page = make_group_page(
                    cli,
                    path.as_str(),
                    description,
                    commands,
                    true,
                );
                if let Some(def) = &cli.root_command {
                    if commands.len() > 0 {
                        page = format_command_help(cli, def, commands);
                    }
                }
                Step::Done { pieces: with_banner(cli.banner, human, page), code: None }
            } else {
                show(make_group_page(cli, path.as_str(), description, commands, true))
            }
        },
        ResolvedCommand::Gateway { path, .. } => {
            let name = cat3(cli.name.as_str(), " ", path.as_str());
            show(
                Piece::Text(cat(name.as_str(), ": fetch gateway (use curl-style arguments)")),
            )
        },
        ResolvedCommand::Error { path, .. } => show(make_missing_page(cli, path)),
    }
}

/// Whether output is shown: it is hidden from a human at a terminal who asked
/// for no format where the policy says so.
pub open spec fn rendered(human: bool, explicit: bool, policy: Option<OutputPolicy>) -> bool {
    !(human && !explicit && policy == Some(OutputPolicy::AgentOnly))
}

fn renders(human: bool, explicit: bool, policy: Option<OutputPolicy>) -> (r: bool)
    ensures
        r == rendered(human, explicit, policy),
{
    let hidden = match policy {
        Some(OutputPolicy::AgentOnly) => true,
        _ => false,
    };
    !(human && !explicit && hidden)
}

/// The first format, or the second where there is no first.
pub open spec fn format_or(first: Option<Format>, second: Format) -> Format {
    match first {
        Some(f) => f,
        None => second,
    }
}

/// The format of a command's output.
pub open spec fn output_format(cli: Cli, flags: Flags, command: CommandDef) -> Format {
    if flags.format_explicit {
        flags.format
    } else {
        format_or(command.format, format_or(cli.format, Format::Toon))
    }
}

/// The policy of a command's output.
pub open spec fn output_policy(
    cli: Cli,
    command: CommandDef,
    policy: Option<OutputPolicy>,
) -> Option<OutputPolicy> {
    policy_or(policy_or(policy, command.output_policy), cli.output_policy)
}

/// Running a command.
pub open spec fn run_decision(
    cli: Cli,
    flags: Flags,
    human: bool,
    command: CommandDef,
    path: Seq<char>,
    rest: Seq<Seq<char>>,
    middleware: Seq<usize>,
    policy: Option<OutputPolicy>,
) -> Decision {
    Decision::Run {
        command,
        path,
        rest,
        middleware: cli.middleware@ + middleware + command.middleware@,
        format: output_format(cli, flags, command),
        render: rendered(human, flags.format_explicit, output_policy(cli, command, policy)),
        warnings: if human {
            all_warnings(command.options_fields@, keyed(command.aliases@), rest)
        } else {
            Seq::empty()
        },
    }
}

fn first_policy(first: Option<OutputPolicy>, second: Option<OutputPolicy>) -> (r: Option<
    OutputPolicy,
>)
    ensures
        r == policy_or(first, second),
{
    match first {
        Some(p) => Some(p),
        None => second,
    }
}

fn run_step<'a>(
    cli: &'a Cli,
    builtin: &BuiltinFlags,
    human: bool,
    command: &'a CommandDef,
    path: String,
    rest: Vec<String>,
    collected: &Vec<usize>,
    policy: Option<OutputPolicy>,
) -> (r: Step<'a>)
    ensures
        r@ == run_decision(
            *cli,
            builtin@,
            human,
            *command,
            path@,
            texts(rest@),
            collected@,
            policy,
        ),
{
    let format = if builtin.format_explicit {
        builtin.format
    } else {
        match command.format {
            Some(f) => f,
            None => match cli.format {
                Some(f) => f,
                None => Format::Toon,
            },
        }
    };
    let effective = first_policy(first_policy(policy, command.output_policy), cli.output_policy);
    let mut middleware: Vec<usize> = Vec::new();
    extend(&mut middleware, &cli.middleware);
    extend(&mut middleware, collected);
    extend(&mut middleware, &command.middleware);
    assert(middleware@ =~= cli.middleware@ + collected@ + command.middleware@);
    let warnings = if human {
        deprecation_warnings(&rest, &command.options_fields, &command.aliases)
    } else {
        Vec::new()
    };
    assert(!human ==> texts(warnings@) =~= Seq::<Seq<char>>::empty());
    Step::Run {
        command,
        path,
        rest,
        middleware,
        format,
        render: renders(human, builtin.format_explicit, effective),
        warnings,
    }
}

/// The names of the built-in commands.
pub open spec fn builtin_names(cli: Seq<char>) -> Seq<Seq<char>> {
    builtins(cli).map_values(|b: Builtin| b.name)
}

/// The names that a word at a path may have been meant for.
pub open spec fn alternatives(cli: Cli, path: Seq<char>) -> Seq<Seq<char>> {
    let known = match level(cli.commands@, path_names(path)) {
        Some(found) => names_at(found),
        None => Seq::empty(),
    };
    if path.len() == 0 {
        known + builtin_names(cli.name@)
    } else {
        known
    }
}

fn alternatives_at(cli: &Cli, path: &String) -> (r: Vec<String>)
    ensures
        texts(r@) == alternatives(*cli, path@),
{
    let mut out = candidates_at_path(&cli.commands, path.as_str());
    let ghost known = texts(out@);
    if is_empty_text(path) {
        let all = builtin_commands(cli.name.as_str());
        let ghost names = builtin_names(cli.name@);
        let mut i: usize = 0;
        assert(texts(out@) =~= known + names.take(0));
        while i < all.len()
            invariant
                i <= all@.len(),
                all_of(all@) == builtins(cli.name@),
                names == builtin_names(cli.name@),
                texts(out@) == known + names.take(i as int),
            decreases all.len() - i,
        {
            let ghost was = texts(out@);
            assert(all_of(all@)[i as int] == all@[i as int]@);
            out.push(all[i].name.clone());
            assert(texts(out@) =~= was.push(names[i as int]));
            assert(names.take(i + 1) =~= names.take(i as int).push(names[i as int]));
            assert(known + names.take(i + 1) =~= (known + names.take(i as int)).push(
                names[i as int],
            ));
            i += 1;
        }
        assert(names.take(names.len() as int) =~= names);
    }
    out
}

fn is_empty_text(s: &String) -> (r: bool)
    ensures
        r == (s@.len() == 0),
{
    let r = same(s.as_str(), "");
    proof {
        reveal_strlit("");
        assert(""@ =~= Seq::<char>::empty());
        if s@.len() == 0 {
            assert(s@ =~= Seq::<char>::empty());
        }
    }
    r
}

/// The words with each `word` replaced.
pub open spec fn corrected(words: Seq<Seq<char>>, word: Seq<char>, by: Seq<char>) -> Seq<Seq<char>> {
    words.map_values(
        |w: Seq<char>|
            if w == word {
                by
            } else {
                w
            },
    )
}

/// The group that a word was looked for in.
pub open spec fn parent_name(cli: Cli, path: Seq<char>) -> Seq<char> {
    if path.len() == 0 {
        cli.name@
    } else {
        cli.name@ + " "@ + path
    }
}

/// What is said where a word leads nowhere.
pub open spec fn missing_message(
    cli: Cli,
    word: Seq<char>,
    path: Seq<char>,
    suggestion: Option<Seq<char>>,
) -> Seq<char> {
    let base = "'"@ + word + "' is not a command for '"@ + parent_name(cli, path) + "'."@;
    match suggestion {
        Some(s) => base + " Did you mean '"@ + s + "'?"@,
        None => base,
    }
}

/// What is suggested where a word leads nowhere: the corrected command line,
/// where there is one, and the help page.
pub open spec fn missing_block(
    cli: Cli,
    words: Seq<Seq<char>>,
    word: Seq<char>,
    path: Seq<char>,
    suggestion: Option<Seq<char>>,
) -> (Seq<char>, Seq<(Seq<char>, Option<Seq<char>>)>) {
    let help = (parent_name(cli, path) + " --help"@, Some("see all available commands"@));
    match suggestion {
        Some(s) => (
            "Suggested commands:"@,
            Seq::empty().push((cli.name@ + " "@ + join(corrected(words, word, s), " "@), None)).push(
                help,
            ),
        ),
        None => ("Suggested command:"@, Seq::empty().push(help)),
    }
}

/// What is shown where a word leads nowhere.
pub open spec fn missing_decision(
    cli: Cli,
    flags: Flags,
    human: bool,
    word: Seq<char>,
    path: Seq<char>,
) -> Decision {
    let suggestion = suggested(word, alternatives(cli, path));
    if path.len() == 0 && suggestion is None && cli.root_command is Some {
        run_decision(
            cli,
            flags,
            human,
            cli.root_command->0,
            cli.name@,
            flags.rest,
            Seq::empty(),
            None,
        )
    } else {
        let message = missing_message(cli, word, path, suggestion);
        let block = missing_block(cli, flags.rest, word, path, suggestion);
        Decision::Done(
            if human {
                Seq::empty().push(Shown::Text(human_error("COMMAND_NOT_FOUND"@, message))).push(
                    Shown::Text(join(block_lines(block), "\n"@)),
                )
            } else {
                Seq::empty().push(
                    Shown::Data(
                        object(
                            Seq::empty().push(
                                ("code"@, Json::String("COMMAND_NOT_FOUND"@)),
                            ).push(("message"@, Json::String(message))).push(
                                ("cta"@, block_json(block)),
                            ),
                        ),
                        flags.format,
                    ),
                )
            },
            Some(1),
        )
    }
}

fn correct_words(words: &Vec<String>, word: &str, by: &str) -> (r: Vec<String>)
    ensures
        texts(r@) == corrected(texts(words@), word@, by@),
{
    let ghost all = corrected(texts(words@), word@, by@);
    let mut out: Vec<String> = Vec::new();
    let mut i: usize = 0;
    while i < words.len()
        invariant
            i <= words@.len(),
            all == corrected(texts(words@), word@, by@),
            texts(out@) == all.take(i as int),
        decreases words.len() - i,
    {
        let ghost was = texts(out@);
        let next = if same(words[i].as_str(), word) {
            by.to_string()
        } else {
            words[i].clone()
        };
        assert(next@ == all[i as int]);
        out.push(next);
        assert(texts(out@) =~= was.push(all[i as int]));
        assert(all.take(i + 1) =~= all.take(i as int).push(all[i as int]));
        i += 1;
    }
    assert(all.take(all.len() as int) =~= all);
    out
}

fn message_for_missing(cli: &Cli, word: &str, path: &String, suggestion: &Option<String>) -> (r:
    String)
    ensures
        r@ == missing_message(*cli, word@, path@, opt_text(*suggestion)),
{
    let parent = parent_of(cli, path);
    let mut out = cat3("'", word, "' is not a command for '");
    out.append(parent.as_str());
    out.append("'.");
    if let Some(s) = suggestion {
        out.append(" Did you mean '");
        out.append(s.as_str());
        out.append("'?");
    }
    out
}

fn parent_of(cli: &Cli, path: &String) -> (r: String)
    ensures
        r@ == parent_name(*cli, path@),
{
    if is_empty_text(path) {
        cli.name.clone()
    } else {
        cat3(cli.name.as_str(), " ", path.as_str())
    }
}

fn block_for_missing(
    cli: &Cli,
    words: &Vec<String>,
    word: &str,
    path: &String,
    suggestion: &Option<String>,
) -> (r: FormattedCtaBlock)
    ensures
        r@ == missing_block(*cli, texts(words@), word@, path@, opt_text(*suggestion)),
{
    let help = FormattedCta {
        command: cat(parent_of(cli, path).as_str(), " --help"),
        description: Some("see all available commands".to_string()),
    };
    let ghost last = help@;
    let mut commands: Vec<FormattedCta> = Vec::new();
    match suggestion {
        Some(s) => {
            let line = join_texts(&correct_words(words, word, s.as_str()), " ");
            let first = FormattedCta {
                command: cat3(cli.name.as_str(), " ", line.as_str()),
                description: None,
            };
            let ghost head = first@;
            commands.push(first);
            commands.push(help);
            assert(suggestions(commands@) =~= Seq::empty().push(head).push(last));
            FormattedCtaBlock { description: "Suggested commands:".to_string(), commands }
        },
        None => {
            commands.push(help);
            assert(suggestions(commands@) =~= Seq::empty().push(last));
            FormattedCtaBlock { description: "Suggested command:".to_string(), commands }
        },
    }
}

fn missing_step<'a>(
    cli: &'a Cli,
    builtin: &BuiltinFlags,
    human: bool,
    word: &String,
    path: &String,
) -> (r: Step<'a>)
    ensures
        r@ == missing_decision(*cli, builtin@, human, word@, path@),
{
    broadcast use {lemma_collected_push, lemma_object_view};

    let suggestion = suggest(word.as_str(), &alternatives_at(cli, path));
    if is_empty_text(path) && suggestion.is_none() {
        if let Some(def) = &cli.root_command {
            let none: Vec<usize> = Vec::new();
            assert(none@ =~= Seq::empty());
            let rest = texts_from(&builtin.rest, 0);
            assert(texts(builtin.rest@).skip(0) =~= texts(builtin.rest@));
            return run_step(cli, builtin, human, def, cli.name.clone(), rest, &none, None);
        }
    }
    let message = message_for_missing(cli, word.as_str(), path, &suggestion);
    let block = block_for_missing(cli, &builtin.rest, word.as_str(), path, &suggestion);
    let mut pieces: Vec<Piece> = Vec::new();
    assert(shown(pieces@) =~= Seq::empty());
    if human {
        push_piece(
            &mut pieces,
            Piece::Text(format_human_error("COMMAND_NOT_FOUND", message.as_str())),
        );
        push_piece(&mut pieces, Piece::Text(format_human_cta(&block)));
    } else {
        let mut value = new_object();
        put(&mut value, "code", string_value("COMMAND_NOT_FOUND"));
        put(&mut value, "message", Value::String(message));
        put(&mut value, "cta", cta_value(&block));
        push_piece(&mut pieces, Piece::Data { value: Value::Object(value), format: builtin.format });
    }
    Step::Done { pieces, code: Some(1) }
}

/// What a target is asked for.
pub open spec fn target_decision(cli: Cli, flags: Flags, human: bool, target: Target) -> Decision {
    if flags.switches.help {
        help_decision(cli, target, human)
    } else if flags.switches.schema {
        match target {
            Target::Leaf { command, .. } => Decision::Schema(
                command,
                if flags.format_explicit {
                    flags.format
                } else {
                    Format::Toon
                },
            ),
            _ => fails("--schema requires a command."@),
        }
    } else {
        match target {
            Target::Gateway { handler, path, rest, base_path, policy } => Decision::Fetch {
                handler,
                path: join(path, " "@),
                rest,
                base_path,
                format: if flags.format_explicit {
                    flags.format
                } else {
                    format_or(cli.format, Format::Json)
                },
                render: rendered(
                    human,
                    flags.format_explicit,
                    policy_or(policy, cli.output_policy),
                ),
            },
            Target::Leaf { command, path, rest, middleware, policy } => run_decision(
                cli,
                flags,
                human,
                command,
                join(path, " "@),
                rest,
                middleware,
                policy,
            ),
            Target::Help { path, description, commands } => shows(
                group_page(cli, join(path, " "@), description, commands@, false),
            ),
            Target::Missing { word, path } => missing_decision(
                cli,
                flags,
                human,
                word,
                join(path, " "@),
            ),
        }
    }
}

fn plain_step<'a>(
    cli: &'a Cli,
    builtin: &BuiltinFlags,
    human: bool,
    resolved: ResolvedCommand<'a>,
) -> (r: Step<'a>)
    requires
        !builtin.help,
        !builtin.schema,
    ensures
        forall|t: Target|
            says(resolved, t) ==> r@ == #[trigger] target_decision(*cli, builtin@, human, t),
{
    match resolved {
        ResolvedCommand::Gateway { handler, path, rest, base_path, output_policy } => {
            let format = if builtin.format_explicit {
                builtin.format
            } else {
                match cli.format {
                    Some(f) => f,
                    None => Format::Json,
                }
            };
            let policy = first_policy(output_policy, cli.output_policy);
            Step::Fetch {
                handler,
                path,
                rest,
                base_path,
                format,
                render: renders(human, builtin.format_explicit, policy),
            }
        },
        ResolvedCommand::Leaf { command, path, rest, collected_middleware, output_policy } => {
            run_step(
                cli,
                builtin,
                human,
                command,
                path,
                rest,
                &collected_middleware,
                output_policy,
            )
        },
        ResolvedCommand::Help { path, description, commands } => show(
            make_group_page(cli, path.as_str(), &description, commands, false),
        ),
        ResolvedCommand::Error { error, path } => missing_step(cli, builtin, human, &error, &path),
    }
}

fn target_step<'a>(cli: &'a Cli, builtin: &BuiltinFlags, human: bool) -> (r: Step<'a>)
    ensures
        r@ == target_decision(*cli, builtin@, human, target(*cli, texts(builtin.rest@))),
{
    let resolved = resolve_target(cli, &builtin.rest);
    let ghost t = target(*cli, texts(builtin.rest@));
    if builtin.help {
        let step = help_step(cli, &resolved, human);
        assert(step@ == help_decision(*cli, t, human));
        return step;
    }
    if builtin.schema {
        return match resolved {
            ResolvedCommand::Leaf { command, .. } => {
                let format = if builtin.format_explicit {
                    builtin.format
                } else {
                    Format::Toon
                };
                Step::Schema { command, format }
            },
            _ => fail("--schema requires a command.".to_string()),
        };
    }
    let step = plain_step(cli, builtin, human, resolved);
    assert(step@ == target_decision(*cli, builtin@, human, t));
    step
}

/// What a command line asks for that names no built-in command.
pub open spec fn command_decision(cli: Cli, flags: Flags, human: bool) -> Decision {
    if flags.switches.config_schema {
        if cli.config is None {
            fails(
                human_error(
                    "CONFIG_SCHEMA_UNAVAILABLE"@,
                    "--config-schema requires CLI config support."@,
                ),
            )
        } else {
            Decision::ConfigSchema
        }
    } else if flags.rest.len() == 0 && cli.root_command is Some && human && any_required(
        cli.root_command->0.args_fields@,
    ) {
        Decision::Done(
            below_banner(
                cli.banner,
                human,
                command_help(cli, cli.root_command->0, cli.commands@),
            ),
            None,
        )
    } else if flags.rest.len() == 0 && cli.root_command is None && !flags.switches.help {
        Decision::Done(below_banner(cli.banner, human, front_page(cli)), None)
    } else {
        target_decision(cli, flags, human, target(cli, flags.rest))
    }
}

fn command_step<'a>(cli: &'a Cli, builtin: &BuiltinFlags, human: bool) -> (r: Step<'a>)
    ensures
        r@ == command_decision(*cli, builtin@, human),
{
    if builtin.config_schema {
        if cli.config.is_none() {
            return fail(
                format_human_error(
                    "CONFIG_SCHEMA_UNAVAILABLE",
                    "--config-schema requires CLI config support.",
                ),
            );
        }
        return Step::ConfigSchema;
    }
    if builtin.rest.len() == 0 {
        match &cli.root_command {
            Some(def) => {
                if human && has_required_args(&def.args_fields) {
                    let page = format_command_help(cli, def, &cli.commands);
                    return Step::Done {
                        pieces: with_banner(cli.banner, human, page),
                        code: None,
                    };
                }
            },
            None => {
                if !builtin.help {
                    let page = make_front_page(cli);
                    return Step::Done {
                        pieces: with_banner(cli.banner, human, page),
                        code: None,
                    };
                }
            },
        }
    }
    target_step(cli, builtin, human)
}

/// What a command line asks for: something about the command line as a whole,
/// completions, a built-in command, or a command of the tree.
pub open spec fn decision(
    cli: Cli,
    flags: Flags,
    argv: Seq<Seq<char>>,
    human: bool,
    shell: Option<Seq<char>>,
    index: Option<Seq<char>>,
) -> Decision {
    match overall(cli, flags) {
        Some(d) => d,
        None => match completion_text(cli, argv, shell, index) {
            Some(text) => shows(Shown::Text(text)),
            None => match builtin_index(flags.rest, cli.name@, "completions"@) {
                Some(i) => completions_decision(cli, flags, i as int),
                None => match builtin_index(flags.rest, cli.name@, "skills"@) {
                    Some(i) => skills_decision(cli, flags, i as int),
                    None => match builtin_index(flags.rest, cli.name@, "mcp"@) {
                        Some(i) => mcp_decision(cli, flags, i as int),
                        None => command_decision(cli, flags, human),
                    },
                },
            },
        },
    }
}

/// Decides what a command line asks for. `argv` holds all of its words, and
/// `builtin` its built-in flags, with the words that are left when the global
/// options are taken out too. `complete_shell` and `complete_index` are what a
/// shell that asks for completions sets.
pub fn decide<'a>(
    cli: &'a Cli,
    builtin: &BuiltinFlags,
    argv: &Vec<String>,
    human: bool,
    complete_shell: Option<&str>,
    complete_index: Option<&str>,
) -> (r: Step<'a>)
    ensures
        r@ == decision(
            *cli,
            builtin@,
            texts(argv@),
            human,
            opt_str(complete_shell),
            opt_str(complete_index),
        ),
{
    if let Some(step) = overall_step(cli, builtin) {
        return step;
    }
    if let Some(text) = completion_for(cli, argv, complete_shell, complete_index) {
        return show(Piece::Text(text));
    }
    let name = cli.name.as_str();
    assert(texts(builtin.rest@).len() == builtin.rest@.len());
    if let Some(i) = builtin_command_index(&builtin.rest, name, "completions") {
        return completions_step(cli, builtin, i);
    }
    if let Some(i) = builtin_command_index(&builtin.rest, name, "skills") {
        return skills_step(cli, builtin, i);
    }
    if let Some(i) = builtin_command_index(&builtin.rest, name, "mcp") {
        return mcp_step(cli, builtin, i);
    }
    command_step(cli, builtin, human)
}

// ---------------------------------------------------------------------------
// Laws
// ---------------------------------------------------------------------------

/// Whether a decision only shows something.
pub open spec fn only_shows(d: Decision) -> bool {
    d is Done || d is Manifest || d is SkillFile || d is SkillIndex || d is ConfigSchema
}

/// A command line that asks for help runs no command, calls no gateway and
/// installs nothing, unless it asks to serve MCP.
pub proof fn law_help_has_no_effect(
    cli: Cli,
    flags: Flags,
    argv: Seq<Seq<char>>,
    human: bool,
    shell: Option<Seq<char>>,
    index: Option<Seq<char>>,
)
    requires
        flags.switches.help,
        !flags.switches.mcp,
    ensures
        only_shows(decision(cli, flags, argv, human, shell, index)),
{
}

/// A command line that asks for a schema runs no command and calls no gateway.
pub proof fn law_schema_runs_nothing(
    cli: Cli,
    flags: Flags,
    argv: Seq<Seq<char>>,
    human: bool,
    shell: Option<Seq<char>>,
    index: Option<Seq<char>>,
)
    requires
        flags.switches.schema,
    ensures
        !(decision(cli, flags, argv, human, shell, index) is Run),
        !(decision(cli, flags, argv, human, shell, index) is Fetch),
{
}

/// Output is hidden from humans only: whatever the policy, an agent and a human
/// who asks for a format see it.
pub proof fn law_output_is_hidden_from_humans_only(
    human: bool,
    explicit: bool,
    policy: Option<OutputPolicy>,
)
    ensures
        !rendered(human, explicit, policy) ==> human && !explicit,
{
}

/// A format that is asked for is the format of the output.
pub proof fn law_explicit_format_wins(cli: Cli, flags: Flags, command: CommandDef)
    requires
        flags.format_explicit,
    ensures
        output_format(cli, flags, command) == flags.format,
{
}

/// The middleware of the command line comes first, that of the groups on the
/// way next, and the command's own last.
pub proof fn law_middleware_order(
    cli: Cli,
    flags: Flags,
    human: bool,
    command: CommandDef,
    path: Seq<char>,
    rest: Seq<Seq<char>>,
    groups: Seq<usize>,
    policy: Option<OutputPolicy>,
)
    ensures
        ({
            let d = run_decision(cli, flags, human, command, path, rest, groups, policy);
            &&& d matches Decision::Run { middleware, .. }
            &&& middleware.len() == cli.middleware@.len() + groups.len() + command.middleware@.len()
            &&& cli.middleware@.is_prefix_of(middleware)
            &&& command.middleware@.is_suffix_of(middleware)
        }),
{
    let all = cli.middleware@ + groups + command.middleware@;
    assert(all.subrange(0, cli.middleware@.len() as int) =~= cli.middleware@);
    assert(all.subrange(
        all.len() - command.middleware@.len(),
        all.len() as int,
    ) =~= command.middleware@);
}

/// Whether a command line asks for nothing but a command.
pub open spec fn asks_for_a_command(cli: Cli, flags: Flags) -> bool {
    &&& !flags.switches.llms
    &&& !flags.switches.llms_full
    &&& !flags.switches.mcp
    &&& !flags.switches.help
    &&& !flags.switches.schema
    &&& !flags.switches.config_schema
    &&& !(flags.switches.version && cli.version is Some)
    &&& flags.rest.len() > 0
    &&& flags.rest[0] != "completions"@
    &&& flags.rest[0] != "skills"@
    &&& flags.rest[0] != "mcp"@
    &&& flags.rest[0] != cli.name@
}

/// A command line that names a command runs it: that command, under its path, with the
/// words behind the path; in the format that was asked for, or else that of the command,
/// of the command line, or TOON. Its output is hidden exactly from a human who asked for
/// no format, where the nearest policy says that it is for agents only.
pub proof fn law_commands_are_run(
    cli: Cli,
    flags: Flags,
    argv: Seq<Seq<char>>,
    human: bool,
    index: Option<Seq<char>>,
)
    requires
        asks_for_a_command(cli, flags),
        resolved(cli.commands@, flags.rest) is Leaf,
    ensures
        resolved(cli.commands@, flags.rest) matches Target::Leaf {
            command,
            path,
            rest,
            middleware,
            policy,
        } ==> {
            let d = decision(cli, flags, argv, human, None, index);
            let nearest = if policy is Some {
                policy
            } else if command.output_policy is Some {
                command.output_policy
            } else {
                cli.output_policy
            };
            &&& d is Run
            &&& d->Run_command == command
            &&& d->Run_path == join(path, " "@)
            &&& d->Run_rest == rest
            &&& d->middleware == cli.middleware@ + middleware + command.middleware@
            &&& flags.format_explicit ==> d->Run_format == flags.format
            &&& !flags.format_explicit && command.format is Some ==> d->Run_format
                == command.format->0
            &&& !flags.format_explicit && command.format is None && cli.format is Some
                ==> d->Run_format == cli.format->0
            &&& !flags.format_explicit && command.format is None && cli.format is None
                ==> d->Run_format == Format::Toon
            &&& d->Run_render <==> !human || flags.format_explicit || nearest != Some(
                OutputPolicy::AgentOnly,
            )
            &&& !human ==> d->warnings.len() == 0
            &&& human ==> d->warnings == all_warnings(
                command.options_fields@,
                keyed(command.aliases@),
                rest,
            )
        },
{
}

/// Every command of the tree is run by its path: the names on the way to it, and behind
/// them its words.
pub proof fn law_listed_commands_are_run(
    cli: Cli,
    flags: Flags,
    argv: Seq<Seq<char>>,
    human: bool,
    index: Option<Seq<char>>,
    k: int,
    rest: Seq<Seq<char>>,
)
    requires
        crate::cli::walk::tree_sorted(cli.commands@),
        0 <= k < crate::cli::walk::leaves(cli.commands@, Seq::empty()).len(),
        flags.rest == crate::cli::walk::leaves(cli.commands@, Seq::empty())[k].0 + rest,
        asks_for_a_command(cli, flags),
    ensures
        decision(cli, flags, argv, human, None, index) is Run,
        decision(cli, flags, argv, human, None, index)->Run_command
            == crate::cli::walk::leaves(cli.commands@, Seq::empty())[k].1,
        decision(cli, flags, argv, human, None, index)->Run_rest == rest,
{
    crate::cli::walk::law_listed_commands_resolve(cli.commands@, k, rest);
    law_commands_are_run(cli, flags, argv, human, index);
}

/// A command line that names a gateway hands it the words behind the path.
pub proof fn law_gateways_are_asked(
    cli: Cli,
    flags: Flags,
    argv: Seq<Seq<char>>,
    human: bool,
    index: Option<Seq<char>>,
)
    requires
        asks_for_a_command(cli, flags),
        resolved(cli.commands@, flags.rest) is Gateway,
    ensures
        resolved(cli.commands@, flags.rest) matches Target::Gateway {
            handler,
            path,
            rest,
            base_path,
            policy,
        } ==> {
            let d = decision(cli, flags, argv, human, None, index);
            let nearest = if policy is Some {
                policy
            } else {
                cli.output_policy
            };
            &&& d is Fetch
            &&& d->handler == handler
            &&& d->Fetch_path == join(path, " "@)
            &&& d->Fetch_rest == rest
            &&& d->base_path == base_path
            &&& flags.format_explicit ==> d->Fetch_format == flags.format
            &&& !flags.format_explicit && cli.format is Some ==> d->Fetch_format == cli.format->0
            &&& !flags.format_explicit && cli.format is None ==> d->Fetch_format == Format::Json
            &&& d->Fetch_render <==> !human || flags.format_explicit || nearest != Some(
                OutputPolicy::AgentOnly,
            )
        },
{
}

/// A word that leads nowhere is refused with a failure that names it and, where a name
/// is close to it, suggests that. Only where nothing is close and the command line has a
/// command of its own does that command get all of the words.
pub proof fn law_missing_commands_are_refused(
    cli: Cli,
    flags: Flags,
    argv: Seq<Seq<char>>,
    human: bool,
    index: Option<Seq<char>>,
)
    requires
        asks_for_a_command(cli, flags),
        resolved(cli.commands@, flags.rest) is Missing,
    ensures
        resolved(cli.commands@, flags.rest) matches Target::Missing { word, path } ==> {
            let d = decision(cli, flags, argv, human, None, index);
            let at = join(path, " "@);
            let close = suggested(word, alternatives(cli, at));
            let lead = "'"@ + word + "' is not a command for '"@ + (if at.len() == 0 {
                cli.name@
            } else {
                cli.name@ + " "@ + at
            }) + "'."@;
            let message = match close {
                Some(s) => lead + " Did you mean '"@ + s + "'?"@,
                None => lead,
            };
            &&& at.len() == 0 && close is None && cli.root_command is Some ==> {
                &&& d is Run
                &&& d->Run_command == cli.root_command->0
                &&& d->Run_rest == flags.rest
            }
            &&& !(at.len() == 0 && close is None && cli.root_command is Some) ==> {
                &&& d matches Decision::Done(pieces, code)
                &&& code == Some(1i32)
                &&& human ==> pieces[0] == Shown::Text(
                    human_error("COMMAND_NOT_FOUND"@, message),
                )
                &&& !human ==> pieces.len() == 1 && (pieces[0] matches Shown::Data(value, format)
                    && format == flags.format && crate::value::field(value, "code"@) == Some(
                    Json::String("COMMAND_NOT_FOUND"@),
                ) && crate::value::field(value, "message"@) == Some(Json::String(message))
                    && crate::value::field(value, "cta"@) is Some)
            }
        },
{
    broadcast use {
        crate::value::lemma_collected_found,
        crate::value::lemma_nothing_collected,
    };

    lemma_error_keys();
}

/// The keys of an error differ.
proof fn lemma_error_keys()
    ensures
        "code"@ != "message"@,
        "code"@ != "cta"@,
        "message"@ != "cta"@,
{
    reveal_strlit("code");
    reveal_strlit("message");
    reveal_strlit("cta");
    assert("code"@.len() == 4);
    assert("message"@.len() == 7);
    assert("cta"@.len() == 3);
}

/// The names that can be meant at the top are those of the commands with their aliases,
/// and those of the built-in commands; below it they are those of the group.
pub proof fn law_alternatives_are_the_names(cli: Cli, names: Seq<Seq<char>>, path: Seq<char>)
    ensures
        alternatives(cli, Seq::empty()) == names_at(cli.commands@) + builtins(cli.name@).map_values(
            |b: Builtin| b.name,
        ),
        path.len() > 0 && level(
            cli.commands@,
            crate::text::split(path, ' '),
        ) is None ==> alternatives(
            cli,
            path,
        ).len() == 0,
        path.len() > 0 && level(
            cli.commands@,
            crate::text::split(path, ' '),
        ) is Some ==> alternatives(cli, path)
            == names_at(level(
            cli.commands@,
            crate::text::split(path, ' '),
        )->0),
{
}

/// The version is shown where it is asked for and there is one, unless help is asked for.
pub proof fn law_version_is_shown(
    cli: Cli,
    flags: Flags,
    argv: Seq<Seq<char>>,
    human: bool,
    shell: Option<Seq<char>>,
    index: Option<Seq<char>>,
)
    requires
        flags.switches.version,
        !flags.switches.help,
        cli.version is Some,
    ensures
        decision(cli, flags, argv, human, shell, index) == Decision::Done(
            seq![Shown::Text(cli.version->0@)],
            None,
        ),
{
    assert(seq![Shown::Text(cli.version->0@)] =~= Seq::empty().push(
        Shown::Text(cli.version->0@),
    ));
}

/// The manifest for agents is given where it is asked for: as skill file or index by
/// default, and as a value in any other format that is asked for. The MCP server is
/// started where that is asked for, under the version of the command line.
pub proof fn law_manifest_and_server(
    cli: Cli,
    flags: Flags,
    argv: Seq<Seq<char>>,
    human: bool,
    shell: Option<Seq<char>>,
    index: Option<Seq<char>>,
)
    requires
        !(flags.switches.version && !flags.switches.help && cli.version is Some),
    ensures
        ({
            let d = decision(cli, flags, argv, human, shell, index);
            let wanted = flags.switches.llms || flags.switches.llms_full;
            let other = flags.format_explicit && flags.format != Format::Markdown;
            &&& wanted && other ==> d == Decision::Manifest(flags.switches.llms_full, flags.format)
            &&& wanted && !other && flags.switches.llms_full ==> d == Decision::SkillFile
            &&& wanted && !other && !flags.switches.llms_full ==> d == Decision::SkillIndex
            &&& !wanted && flags.switches.mcp && cli.version is Some ==> d == Decision::ServeMcp(
                cli.version->0@,
            )
            &&& !wanted && flags.switches.mcp && cli.version is None ==> d == Decision::ServeMcp(
                "0.0.0"@,
            )
        }),
{
}

/// The schema of a command is given in the format that was asked for, or in TOON, and
/// refused where no command is named.
pub proof fn law_schemas_are_given(cli: Cli, flags: Flags, human: bool, target: Target)
    requires
        flags.switches.schema,
        !flags.switches.help,
    ensures
        target matches Target::Leaf { command, .. } ==> target_decision(cli, flags, human, target)
            == Decision::Schema(
            command,
            if flags.format_explicit {
                flags.format
            } else {
                Format::Toon
            },
        ),
        !(target is Leaf) ==> (target_decision(cli, flags, human, target) matches Decision::Done(
            _,
            code,
        ) && code == Some(1i32)),
{
}

/// The names of the built-in commands differ.
proof fn lemma_builtin_names()
    ensures
        "completions"@ != "skills"@,
        "completions"@ != "mcp"@,
        "skills"@ != "mcp"@,
{
    reveal_strlit("completions");
    reveal_strlit("skills");
    reveal_strlit("mcp");
    assert("completions"@.len() == 11);
    assert("skills"@.len() == 6);
    assert("mcp"@.len() == 3);
}

/// Nothing asked for: the command line's own command where it has one that a human can
/// run without arguments, and the front page or its help otherwise.
pub proof fn law_nothing_asked_for(cli: Cli, flags: Flags, human: bool)
    requires
        flags.rest.len() == 0,
        !flags.switches.config_schema,
        !flags.switches.help,
        !flags.switches.schema,
    ensures
        cli.root_command is None ==> (command_decision(cli, flags, human) matches Decision::Done(
            pieces,
            code,
        ) && code is None && pieces.last() == front_page(cli)),
        cli.root_command is Some && human && any_required(cli.root_command->0.args_fields@) ==> (
        command_decision(cli, flags, human) matches Decision::Done(pieces, code) && code is None
            && pieces.last() == command_help(cli, cli.root_command->0, cli.commands@)),
        cli.root_command is Some && !(human && any_required(cli.root_command->0.args_fields@)) ==> {
            let d = command_decision(cli, flags, human);
            &&& d is Run
            &&& d->Run_command == cli.root_command->0
            &&& d->Run_rest.len() == 0
        },
{
}

/// A completion script is given for a known shell, and any other is refused.
pub proof fn law_scripts_are_given(cli: Cli, flags: Flags, name: Seq<char>, human: bool)
    requires
        flags.rest == seq!["completions"@, name],
        !flags.switches.help,
        overall(cli, flags) is None,
    ensures
        ({
            let d = decision(cli, flags, flags.rest, human, None, None);
            &&& shell_named(name) matches Some(shell) ==> d == Decision::Done(
                seq![Shown::Text(scripts(shell, cli.name@, texts(cli.aliases@)))],
                None,
            )
            &&& shell_named(name) is None ==> (d matches Decision::Done(_, code) && code == Some(
                1i32,
            ))
        }),
{
    assert(flags.rest[0] == "completions"@);
    assert(flags.rest[1] == name);
    if let Some(shell) = shell_named(name) {
        let text = Shown::Text(scripts(shell, cli.name@, texts(cli.aliases@)));
        assert(seq![text] =~= Seq::empty().push(text));
    }
}

/// A command line corrected by a suggestion has the suggestion in place of the word, and
/// is otherwise the same.
pub proof fn law_corrections_replace_the_word(
    words: Seq<Seq<char>>,
    word: Seq<char>,
    by: Seq<char>,
    i: int,
)
    requires
        0 <= i < words.len(),
    ensures
        corrected(words, word, by).len() == words.len(),
        words[i] == word ==> corrected(words, word, by)[i] == by,
        words[i] != word ==> corrected(words, word, by)[i] == words[i],
{
}

/// The subcommands for skills list them, by either name, and sync them, at the depth that
/// is asked for and globally unless that is switched off.
pub proof fn law_skills_are_listed_and_synced(
    cli: Cli,
    flags: Flags,
    argv: Seq<Seq<char>>,
    human: bool,
    index: Option<Seq<char>>,
    sub: Seq<char>,
    words: Seq<Seq<char>>,
)
    requires
        overall(cli, flags) is None,
        !flags.switches.help,
        cli.name@ != "skills"@,
        flags.rest == seq!["skills"@, sub] + words,
    ensures
        ({
            let d = decision(cli, flags, argv, human, None, index);
            &&& sub == "list"@ || sub == "ls"@ ==> d == Decision::ListSkills
            &&& sub == "add"@ ==> d == Decision::SyncSkills(
                depth_of(words),
                !words.contains("--no-global"@),
            )
            &&& sub != "list"@ && sub != "ls"@ && sub != "add"@ ==> d is Done
        }),
{
    lemma_sub_words();
    lemma_builtin_names();
    assert(flags.rest[0] == "skills"@);
    assert(flags.rest[1] == sub);
    assert(behind(flags.rest, 0) =~= words);
    reveal_with_fuel(sub_answering, 3);
    let subs = skills_builtin().subcommands;
    assert(subs[0].aliases.len() == 0);
    assert(subs[1].aliases =~= seq!["ls"@]);
    assert(subs[1].aliases.contains(sub) <==> sub == "ls"@) by {
        assert(subs[1].aliases[0] == "ls"@);
    }
}

/// The words of the built-in subcommands differ.
proof fn lemma_sub_words()
    ensures
        "add"@ != "list"@,
        "add"@ != "ls"@,
        "add"@ != "doctor"@,
        "list"@ != "ls"@,
        "list"@ != "doctor"@,
        "ls"@ != "doctor"@,
{
    reveal_strlit("add");
    reveal_strlit("list");
    reveal_strlit("ls");
    reveal_strlit("doctor");
    assert("add"@.len() == 3);
    assert("list"@.len() == 4);
    assert("ls"@.len() == 2);
    assert("doctor"@.len() == 6);
}

/// The subcommands for the MCP server check it and register it, with the command and the
/// agents that are named and globally unless that is switched off.
pub proof fn law_server_is_checked_and_registered(
    cli: Cli,
    flags: Flags,
    argv: Seq<Seq<char>>,
    human: bool,
    index: Option<Seq<char>>,
    sub: Seq<char>,
    words: Seq<Seq<char>>,
)
    requires
        overall(cli, flags) is None,
        !flags.switches.help,
        cli.name@ != "mcp"@,
        flags.rest == seq!["mcp"@, sub] + words,
    ensures
        ({
            let d = decision(cli, flags, argv, human, None, index);
            let (command, agents) = registration_words(words, 0, None, Seq::empty());
            &&& sub == "doctor"@ ==> d == Decision::Done(
                seq![
                    Shown::Data(doctor_report(cli.commands@, cli.mcp_options.tools), flags.format),
                ],
                None,
            )
            &&& sub == "add"@ ==> (d matches Decision::RegisterMcp(named, chosen, global) && named
                == command && (chosen is None <==> agents.len() == 0) && (chosen matches Some(list)
                ==> list == agents) && global == !words.contains("--no-global"@))
            &&& sub != "doctor"@ && sub != "add"@ ==> d is Done
        }),
{
    lemma_sub_words();
    lemma_builtin_names();
    assert(flags.rest[0] == "mcp"@);
    assert(flags.rest[1] == sub);
    assert(behind(flags.rest, 0) =~= words);
    reveal_with_fuel(sub_answering, 3);
    let subs = mcp_builtin().subcommands;
    assert(subs[0].aliases.len() == 0);
    assert(subs[1].aliases.len() == 0);
    let piece = Shown::Data(doctor_report(cli.commands@, cli.mcp_options.tools), flags.format);
    assert(seq![piece] =~= Seq::empty().push(piece));
}

/// A registration takes the word behind a command flag as the command, the last one
/// counting, and each word behind an agent flag as one more agent; other words do not
/// matter.
pub proof fn law_registrations_take_their_words(
    rest: Seq<Seq<char>>,
    word: Seq<char>,
    command: Option<Seq<char>>,
    agents: Seq<Seq<char>>,
)
    ensures
        registration_words(seq!["--command"@, word] + rest, 0, command, agents)
            == registration_words(rest, 0, Some(word), agents),
        registration_words(seq!["-c"@, word] + rest, 0, command, agents) == registration_words(
            rest,
            0,
            Some(word),
            agents,
        ),
        registration_words(seq!["--agent"@, word] + rest, 0, command, agents)
            == registration_words(rest, 0, command, agents.push(word)),
        word != "--command"@ && word != "-c"@ && word != "--agent"@ ==> registration_words(
            seq![word] + rest,
            0,
            command,
            agents,
        ) == registration_words(rest, 0, command, agents),
        registration_words(Seq::empty(), 0, command, agents) == (command, agents),
{
    lemma_registration_flags();
    lemma_registration_shift(seq!["--command"@, word], rest, 2, Some(word), agents);
    lemma_registration_shift(seq!["-c"@, word], rest, 2, Some(word), agents);
    lemma_registration_shift(seq!["--agent"@, word], rest, 2, command, agents.push(word));
    lemma_registration_shift(seq![word], rest, 1, command, agents);
}

/// The flags of a registration differ.
proof fn lemma_registration_flags()
    ensures
        "--command"@ != "-c"@,
        "--command"@ != "--agent"@,
        "-c"@ != "--agent"@,
{
    reveal_strlit("--command");
    reveal_strlit("-c");
    reveal_strlit("--agent");
    assert("--command"@.len() == 9);
    assert("-c"@.len() == 2);
    assert("--agent"@.len() == 7);
}

proof fn lemma_registration_shift(
    front: Seq<Seq<char>>,
    rest: Seq<Seq<char>>,
    from: nat,
    command: Option<Seq<char>>,
    agents: Seq<Seq<char>>,
)
    requires
        from >= front.len(),
    ensures
        registration_words(front + rest, from, command, agents) == registration_words(
            rest,
            (from - front.len()) as nat,
            command,
            agents,
        ),
    decreases front.len() + rest.len() - from,
{
    let all = front + rest;
    let at = (from - front.len()) as nat;
    if from < all.len() {
        assert(all[from as int] == rest[at as int]);
        if from + 1 < all.len() {
            assert(all[from as int + 1] == rest[at as int + 1]);
            lemma_registration_shift(front, rest, from + 2, Some(all[from as int + 1]), agents);
            lemma_registration_shift(
                front,
                rest,
                from + 2,
                command,
                agents.push(all[from as int + 1]),
            );
        }
        lemma_registration_shift(front, rest, from + 1, command, agents);
    }
}

/// The depth is the number behind its flag, and one where the flag is not given or no
/// number follows it.
pub proof fn law_depth_is_read(
    before: Seq<Seq<char>>,
    after: Seq<Seq<char>>,
    n: nat,
    word: Seq<char>,
)
    requires
        !before.contains("--depth"@),
        n <= usize::MAX,
    ensures
        depth_of(before + seq!["--depth"@, crate::text::decimal(n)] + after) == n,
        parsed_up_to(word, usize::MAX as nat) is None ==> depth_of(
            before + seq!["--depth"@, word] + after,
        ) == 1,
        (forall|i: int|
            0 <= i < before.len() ==> !"--depth="@.is_prefix_of(#[trigger] before[i])) ==> depth_of(
            before,
        ) == 1,
{
    crate::text::law_numbers_are_read_back(n, usize::MAX as nat);
    let a = before + seq!["--depth"@, crate::text::decimal(n)] + after;
    assert(a.take(before.len() as int) =~= before);
    lemma_position(a, "--depth"@, before.len() as int, 0, before);
    assert(a[before.len() as int + 1] == crate::text::decimal(n));
    let b = before + seq!["--depth"@, word] + after;
    assert(b.take(before.len() as int) =~= before);
    lemma_position(b, "--depth"@, before.len() as int, 0, before);
    assert(b[before.len() as int + 1] == word);
    lemma_no_position(before, "--depth"@, 0);
    if forall|i: int| 0 <= i < before.len() ==> !"--depth="@.is_prefix_of(#[trigger] before[i]) {
        lemma_none_starting(before, "--depth="@, 0);
    }
}

proof fn lemma_position(
    words: Seq<Seq<char>>,
    text: Seq<char>,
    at: int,
    from: nat,
    before: Seq<Seq<char>>,
)
    requires
        from <= at < words.len(),
        words[at] == text,
        words.take(at) == before,
        !before.contains(text),
    ensures
        position(words, text, from) == Some(at as nat),
    decreases at - from,
{
    if from < at {
        assert(before[from as int] == words[from as int]);
        assert(before.contains(before[from as int]));
        lemma_position(words, text, at, from + 1, before);
    }
}

proof fn lemma_no_position(words: Seq<Seq<char>>, text: Seq<char>, from: nat)
    requires
        !words.contains(text),
    ensures
        position(words, text, from) is None,
    decreases words.len() - from,
{
    if from < words.len() {
        assert(words.contains(words[from as int]));
        lemma_no_position(words, text, from + 1);
    }
}

proof fn lemma_none_starting(words: Seq<Seq<char>>, start: Seq<char>, from: nat)
    requires
        forall|i: int| 0 <= i < words.len() ==> !start.is_prefix_of(#[trigger] words[i]),
    ensures
        position_starting(words, start, from) is None,
    decreases words.len() - from,
{
    if from < words.len() {
        lemma_none_starting(words, start, from + 1);
    }
}

/// The schema of the configuration is given where the command line has one, and refused
/// otherwise.
pub proof fn law_config_schema_is_given(cli: Cli, flags: Flags, human: bool)
    requires
        flags.switches.config_schema,
    ensures
        cli.config is Some ==> command_decision(cli, flags, human) == Decision::ConfigSchema,
        cli.config is None ==> (command_decision(cli, flags, human) matches Decision::Done(_, code)
            && code == Some(1i32)),
{
}

/// Help shows the page of the command that the words lead to.
pub proof fn law_help_shows_the_page(cli: Cli, flags: Flags, human: bool)
    requires
        flags.switches.help,
        !flags.switches.config_schema,
        flags.rest.len() > 0,
    ensures
        ({
            let d = command_decision(cli, flags, human);
            let found = resolved(cli.commands@, flags.rest);
            &&& d matches Decision::Done(_, code) && code is None
            &&& found matches Target::Leaf { command, path, .. } ==> d->Done_0.last() == leaf_page(
                cli,
                command,
                join(path, " "@),
            )
            &&& found matches Target::Help { path, description, commands } ==> (join(path, " "@)
                != cli.name@ ==> d->Done_0.last() == group_page(
                cli,
                join(path, " "@),
                description,
                commands@,
                true,
            ))
        }),
{
}

} // verus!
