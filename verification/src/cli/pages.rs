//! The help pages of a command-line interface.

use vstd::prelude::*;
use crate::cli::builder::{BannerMode, Cli};
use crate::cli::builtins::{subs, Builtin, BuiltinCommand, Sub};
use crate::cli::collect::{collect_help_commands, listed};
use crate::cli::completing::copy_aliases;
use crate::cli::tree::CommandEntry;
use crate::command::{copy_examples, examples_of, CommandDef};
use crate::help::{
    opt_texts, summaries, CommandPage, CommandSummary, FormatCommandOptions, FormatRootOptions,
    RootPage,
};
use crate::output::Format;
use crate::schema::{copy_fields, fields, Field, FieldMeta};
use crate::table::keyed;
use crate::text::{cat3, copy_opt, opt_text, same, texts};
use crate::value::{Json, Value};

verus! {

/// A piece of output.
pub enum Piece {
    /// A text.
    Text(String),
    /// A value, rendered in a format.
    Data {
        /// The value.
        value: Value,
        /// The format.
        format: Format,
    },
    /// A value, rendered in a format, with token operations applied.
    Counted {
        /// The value.
        value: Value,
        /// The format.
        format: Format,
    },
    /// A value as JSON on one line.
    Line(Value),
    /// The help page of a command line or group.
    RootHelp {
        /// Name above the page.
        name: String,
        /// Content of the page.
        page: FormatRootOptions,
    },
    /// The help page of a command.
    CommandHelp {
        /// Name above the page.
        name: String,
        /// Content of the page.
        page: FormatCommandOptions,
    },
    /// The content above root help.
    Banner,
}

/// What a [`Piece`] shows.
pub enum Shown {
    /// A text.
    Text(Seq<char>),
    /// A value, rendered in a format.
    Data(Json, Format),
    /// A value, rendered in a format, with token operations applied.
    Counted(Json, Format),
    /// A value as JSON on one line.
    Line(Json),
    /// The help page of a command line or group.
    RootHelp(Seq<char>, RootPage),
    /// The help page of a command.
    CommandHelp(Seq<char>, CommandPage),
    /// The content above root help.
    Banner,
}

impl View for Piece {
    type V = Shown;

    open spec fn view(&self) -> Shown {
        match *self {
            Piece::Text(s) => Shown::Text(s@),
            Piece::Data { value, format } => Shown::Data(value@, format),
            Piece::Counted { value, format } => Shown::Counted(value@, format),
            Piece::Line(value) => Shown::Line(value@),
            Piece::RootHelp { name, page } => Shown::RootHelp(name@, page@),
            Piece::CommandHelp { name, page } => Shown::CommandHelp(name@, page@),
            Piece::Banner => Shown::Banner,
        }
    }
}

/// What pieces show.
pub open spec fn shown(v: Seq<Piece>) -> Seq<Shown> {
    v.map_values(|p: Piece| p@)
}

/// Adds a piece.
pub fn push_piece(v: &mut Vec<Piece>, piece: Piece)
    ensures
        shown(final(v)@) == shown(old(v)@).push(piece@),
{
    let ghost was = shown(v@);
    v.push(piece);
    assert(shown(v@) =~= was.push(piece@));
}

/// The list of one piece.
pub fn one_piece(piece: Piece) -> (r: Vec<Piece>)
    ensures
        shown(r@) == seq![piece@],
{
    let mut v: Vec<Piece> = Vec::new();
    v.push(piece);
    assert(shown(v@) =~= seq![piece@]);
    v
}

/// Whether the content above root help is shown.
pub open spec fn banner_shown(banner: Option<BannerMode>, human: bool) -> bool {
    match banner {
        Some(BannerMode::All) => true,
        Some(BannerMode::Human) => human,
        Some(BannerMode::Agent) => !human,
        None => false,
    }
}

/// Whether the content above root help is shown.
pub fn shows_banner(banner: Option<BannerMode>, human: bool) -> (r: bool)
    ensures
        r == banner_shown(banner, human),
{
    match banner {
        Some(BannerMode::All) => true,
        Some(BannerMode::Human) => human,
        Some(BannerMode::Agent) => !human,
        None => false,
    }
}

/// A page with the content above root help before it where that is shown.
pub open spec fn below_banner(banner: Option<BannerMode>, human: bool, page: Shown) -> Seq<Shown> {
    if banner_shown(banner, human) {
        Seq::empty().push(Shown::Banner).push(page)
    } else {
        Seq::empty().push(page)
    }
}

/// Puts the content above root help before a page where it is shown.
pub fn with_banner(banner: Option<BannerMode>, human: bool, page: Piece) -> (r: Vec<Piece>)
    ensures
        shown(r@) == below_banner(banner, human, page@),
{
    let mut out: Vec<Piece> = Vec::new();
    assert(shown(out@) =~= Seq::empty());
    if shows_banner(banner, human) {
        push_piece(&mut out, Piece::Banner);
    }
    push_piece(&mut out, page);
    out
}

/// The list where it is not empty.
pub open spec fn unless_none(v: Seq<Seq<char>>) -> Option<Seq<Seq<char>>> {
    if v.len() == 0 {
        None
    } else {
        Some(v)
    }
}

/// Copies a list where it is not empty.
fn copy_unless_none(v: &Vec<String>) -> (r: Option<Vec<String>>)
    ensures
        opt_texts(r) == unless_none(texts(v@)),
{
    if v.len() == 0 {
        None
    } else {
        Some(v.clone())
    }
}

/// The name of the flag that gives a config file.
pub open spec fn config_flag(cli: Cli) -> Option<Seq<char>> {
    match cli.config {
        Some(c) => Some(c.flag@),
        None => None,
    }
}

/// The name of the flag that gives a config file.
pub fn config_flag_of(cli: &Cli) -> (r: Option<String>)
    ensures
        opt_text(r) == config_flag(*cli),
{
    match &cli.config {
        Some(c) => Some(c.flag.clone()),
        None => None,
    }
}

/// A help page of a level of the command tree.
pub open spec fn root_page(
    cli: Cli,
    aliases: Option<Seq<Seq<char>>>,
    commands: Seq<(String, CommandEntry)>,
    description: Option<Seq<char>>,
    root: bool,
    version: Option<Seq<char>>,
) -> RootPage {
    RootPage {
        aliases,
        config_flag: config_flag(cli),
        commands: listed(commands),
        description,
        global_aliases: keyed(cli.global_aliases@),
        globals: fields(cli.globals_fields@),
        root,
        version,
    }
}

/// Makes a help page of a level of the command tree.
pub fn make_root_page(
    cli: &Cli,
    aliases: Option<Vec<String>>,
    commands: &Vec<(String, CommandEntry)>,
    description: Option<String>,
    root: bool,
    version: Option<String>,
) -> (r: FormatRootOptions)
    ensures
        r@ == root_page(
            *cli,
            opt_texts(aliases),
            commands@,
            opt_text(description),
            root,
            opt_text(version),
        ),
{
    FormatRootOptions {
        aliases,
        config_flag: config_flag_of(cli),
        commands: collect_help_commands(commands),
        description,
        global_aliases: copy_aliases(&cli.global_aliases),
        globals_fields: copy_fields(&cli.globals_fields),
        root,
        version,
    }
}

/// The help page of a command.
pub open spec fn command_page(
    cli: Cli,
    command: CommandDef,
    aliases: Option<Seq<Seq<char>>>,
    commands: Seq<(Seq<char>, Option<Seq<char>>)>,
    root: bool,
    version: Option<Seq<char>>,
) -> CommandPage {
    CommandPage {
        aliases,
        args: fields(command.args_fields@),
        config_flag: config_flag(cli),
        commands,
        description: opt_text(command.description),
        env: fields(command.env_fields@),
        examples: examples_of(command.examples@),
        global_aliases: keyed(cli.global_aliases@),
        globals: fields(cli.globals_fields@),
        hint: opt_text(command.hint),
        hide_global_options: false,
        options: fields(command.options_fields@),
        option_aliases: keyed(command.aliases@),
        root,
        version,
    }
}

/// Makes the help page of a command.
pub fn make_command_page(
    cli: &Cli,
    command: &CommandDef,
    aliases: Option<Vec<String>>,
    commands: Vec<CommandSummary>,
    root: bool,
    version: Option<String>,
) -> (r: FormatCommandOptions)
    ensures
        r@ == command_page(
            *cli,
            *command,
            opt_texts(aliases),
            summaries(commands@),
            root,
            opt_text(version),
        ),
{
    FormatCommandOptions {
        aliases,
        args_fields: copy_fields(&command.args_fields),
        config_flag: config_flag_of(cli),
        commands,
        description: copy_opt(&command.description),
        env_fields: copy_fields(&command.env_fields),
        examples: copy_examples(&command.examples),
        global_aliases: copy_aliases(&cli.global_aliases),
        globals_fields: copy_fields(&cli.globals_fields),
        hint: copy_opt(&command.hint),
        hide_global_options: false,
        options_fields: copy_fields(&command.options_fields),
        option_aliases: copy_aliases(&command.aliases),
        root,
        version,
    }
}

/// The help page of the command line's own command, with the commands of a
/// level below it.
pub open spec fn command_help(
    cli: Cli,
    command: CommandDef,
    commands: Seq<(String, CommandEntry)>,
) -> Shown {
    Shown::CommandHelp(
        cli.name@,
        command_page(
            cli,
            command,
            unless_none(texts(cli.aliases@)),
            listed(commands),
            true,
            opt_text(cli.version),
        ),
    )
}

/// Formats command help including subcommands.
pub fn format_command_help(
    cli: &Cli,
    command: &CommandDef,
    commands: &Vec<(String, CommandEntry)>,
) -> (r: Piece)
    ensures
        r@ == command_help(*cli, *command, commands@),
{
    Piece::CommandHelp {
        name: cli.name.clone(),
        page: make_command_page(
            cli,
            command,
            copy_unless_none(&cli.aliases),
            collect_help_commands(commands),
            true,
            copy_opt(&cli.version),
        ),
    }
}

/// The help page of the command line where it has no command of its own.
pub open spec fn front_page(cli: Cli) -> Shown {
    Shown::RootHelp(
        cli.name@,
        root_page(
            cli,
            unless_none(texts(cli.aliases@)),
            cli.commands@,
            opt_text(cli.description),
            true,
            opt_text(cli.version),
        ),
    )
}

/// Makes the help page of the command line where it has no command of its own.
pub fn make_front_page(cli: &Cli) -> (r: Piece)
    ensures
        r@ == front_page(*cli),
{
    Piece::RootHelp {
        name: cli.name.clone(),
        page: make_root_page(
            cli,
            copy_unless_none(&cli.aliases),
            &cli.commands,
            copy_opt(&cli.description),
            true,
            copy_opt(&cli.version),
        ),
    }
}

/// The name of the binary with the path of a command behind it, or the name
/// alone where the path is the name itself.
pub open spec fn page_name(cli: Cli, path: Seq<char>) -> Seq<char> {
    if path == cli.name@ {
        cli.name@
    } else {
        cli.name@ + " "@ + path
    }
}

/// Gives the name above the help page of a path.
pub fn name_for_page(cli: &Cli, path: &str) -> (r: String)
    ensures
        r@ == page_name(*cli, path@),
{
    if same(path, cli.name.as_str()) {
        cli.name.clone()
    } else {
        cat3(cli.name.as_str(), " ", path)
    }
}

/// The help page of a leaf command at a path.
pub open spec fn leaf_page(cli: Cli, command: CommandDef, path: Seq<char>) -> Shown {
    let is_root = path == cli.name@;
    Shown::CommandHelp(
        page_name(cli, path),
        command_page(
            cli,
            command,
            if is_root && cli.aliases@.len() > 0 {
                Some(texts(cli.aliases@))
            } else if !is_root && command.command_aliases@.len() > 0 {
                Some(texts(command.command_aliases@))
            } else {
                None
            },
            if is_root {
                listed(cli.commands@)
            } else {
                Seq::empty()
            },
            is_root,
            if is_root {
                opt_text(cli.version)
            } else {
                None
            },
        ),
    )
}

/// Makes the help page of a leaf command at a path.
pub fn make_leaf_page(cli: &Cli, command: &CommandDef, path: &str) -> (r: Piece)
    ensures
        r@ == leaf_page(*cli, *command, path@),
{
    let is_root = same(path, cli.name.as_str());
    let aliases = if is_root {
        copy_unless_none(&cli.aliases)
    } else {
        copy_unless_none(&command.command_aliases)
    };
    let commands = if is_root {
        collect_help_commands(&cli.commands)
    } else {
        Vec::new()
    };
    assert(!is_root ==> summaries(commands@) =~= Seq::empty());
    let version = if is_root {
        copy_opt(&cli.version)
    } else {
        None
    };
    Piece::CommandHelp {
        name: name_for_page(cli, path),
        page: make_command_page(cli, command, aliases, commands, is_root, version),
    }
}

/// The help page of a group at a path.
pub open spec fn group_page(
    cli: Cli,
    path: Seq<char>,
    description: Option<Seq<char>>,
    commands: Seq<(String, CommandEntry)>,
    asked: bool,
) -> Shown {
    let is_root = path == cli.name@;
    Shown::RootHelp(
        page_name(cli, path),
        root_page(
            cli,
            if asked && is_root {
                unless_none(texts(cli.aliases@))
            } else {
                None
            },
            commands,
            description,
            is_root,
            if asked && is_root {
                opt_text(cli.version)
            } else {
                None
            },
        ),
    )
}

/// Makes the help page of a group at a path. `asked` says whether help was
/// asked for.
pub fn make_group_page(
    cli: &Cli,
    path: &str,
    description: &Option<String>,
    commands: &Vec<(String, CommandEntry)>,
    asked: bool,
) -> (r: Piece)
    ensures
        r@ == group_page(*cli, path@, opt_text(*description), commands@, asked),
{
    let is_root = same(path, cli.name.as_str());
    let aliases = if asked && is_root {
        copy_unless_none(&cli.aliases)
    } else {
        None
    };
    let version = if asked && is_root {
        copy_opt(&cli.version)
    } else {
        None
    };
    Piece::RootHelp {
        name: name_for_page(cli, path),
        page: make_root_page(cli, aliases, commands, copy_opt(description), is_root, version),
    }
}

/// The help page that is shown where a word leads nowhere.
pub open spec fn missing_page(cli: Cli, path: Seq<char>) -> Shown {
    Shown::RootHelp(
        if path.len() == 0 {
            cli.name@
        } else {
            cli.name@ + " "@ + path
        },
        root_page(cli, None, cli.commands@, opt_text(cli.description), path.len() == 0, None),
    )
}

/// Makes the help page that is shown where a word leads nowhere.
pub fn make_missing_page(cli: &Cli, path: &String) -> (r: Piece)
    ensures
        r@ == missing_page(*cli, path@),
{
    let empty = same(path.as_str(), "");
    proof {
        reveal_strlit("");
        assert(""@ =~= Seq::<char>::empty());
        assert(empty == (path@.len() == 0)) by {
            if path@.len() == 0 {
                assert(path@ =~= Seq::<char>::empty());
            }
        }
    }
    let name = if empty {
        cli.name.clone()
    } else {
        cat3(cli.name.as_str(), " ", path.as_str())
    };
    Piece::RootHelp {
        name,
        page: make_root_page(
            cli,
            None,
            &cli.commands,
            copy_opt(&cli.description),
            empty,
            None,
        ),
    }
}

// ---------------------------------------------------------------------------
// Built-in commands
// ---------------------------------------------------------------------------

/// The names and descriptions of subcommands.
pub open spec fn sub_summaries(v: Seq<Sub>) -> Seq<(Seq<char>, Option<Seq<char>>)> {
    v.map_values(|s: Sub| (s.name, Some(s.description)))
}

/// The help page of a built-in command.
pub open spec fn builtin_page(cli: Seq<char>, builtin: Builtin) -> Shown {
    Shown::RootHelp(
        cli + " "@ + builtin.name,
        RootPage {
            aliases: None,
            config_flag: None,
            commands: sub_summaries(builtin.subcommands),
            description: Some(builtin.description),
            global_aliases: Seq::empty(),
            globals: Seq::empty(),
            root: false,
            version: None,
        },
    )
}

/// Makes the help page of a built-in command.
pub fn format_builtin_help(cli_name: &str, builtin: &BuiltinCommand) -> (r: Piece)
    ensures
        r@ == builtin_page(cli_name@, builtin@),
{
    let ghost all = sub_summaries(subs(builtin.subcommands@));
    let mut commands: Vec<CommandSummary> = Vec::new();
    let mut i: usize = 0;
    while i < builtin.subcommands.len()
        invariant
            i <= builtin.subcommands@.len(),
            all == sub_summaries(subs(builtin.subcommands@)),
            summaries(commands@) == all.take(i as int),
        decreases builtin.subcommands.len() - i,
    {
        let ghost was = summaries(commands@);
        commands.push(
            CommandSummary {
                name: builtin.subcommands[i].name.clone(),
                description: Some(builtin.subcommands[i].description.clone()),
            },
        );
        assert(summaries(commands@) =~= was.push(all[i as int]));
        assert(all.take(i + 1) =~= all.take(i as int).push(all[i as int]));
        i += 1;
    }
    assert(all.take(all.len() as int) =~= all);
    let page = FormatRootOptions {
        aliases: None,
        config_flag: None,
        commands,
        description: Some(builtin.description.clone()),
        global_aliases: Vec::new(),
        globals_fields: Vec::new(),
        root: false,
        version: None,
    };
    assert(keyed(page.global_aliases@) =~= Seq::empty());
    assert(fields(page.globals_fields@) =~= Seq::empty());
    Piece::RootHelp { name: cat3(cli_name, " ", builtin.name.as_str()), page }
}

/// The page of a command that shows no global options and has nothing but the
/// given content.
pub open spec fn bare_page(
    args: Seq<Field>,
    description: Option<Seq<char>>,
    hint: Option<Seq<char>>,
    options: Seq<Field>,
    option_aliases: Seq<(Seq<char>, char)>,
) -> CommandPage {
    CommandPage {
        aliases: None,
        args,
        config_flag: None,
        commands: Seq::empty(),
        description,
        env: Seq::empty(),
        examples: Seq::empty(),
        global_aliases: Seq::empty(),
        globals: Seq::empty(),
        hint,
        hide_global_options: true,
        options,
        option_aliases,
        root: false,
        version: None,
    }
}

/// Makes the page of a command that shows no global options.
fn make_bare_page(
    args_fields: Vec<FieldMeta>,
    description: Option<String>,
    hint: Option<String>,
    options_fields: Vec<FieldMeta>,
    option_aliases: Vec<(String, char)>,
) -> (r: FormatCommandOptions)
    ensures
        r@ == bare_page(
            fields(args_fields@),
            opt_text(description),
            opt_text(hint),
            fields(options_fields@),
            keyed(option_aliases@),
        ),
{
    let page = FormatCommandOptions {
        aliases: None,
        args_fields,
        config_flag: None,
        commands: Vec::new(),
        description,
        env_fields: Vec::new(),
        examples: Vec::new(),
        global_aliases: Vec::new(),
        globals_fields: Vec::new(),
        hint,
        hide_global_options: true,
        options_fields,
        option_aliases,
        root: false,
        version: None,
    };
    assert(summaries(page.commands@) =~= Seq::empty());
    assert(fields(page.env_fields@) =~= Seq::empty());
    assert(examples_of(page.examples@) =~= Seq::empty());
    assert(keyed(page.global_aliases@) =~= Seq::empty());
    assert(fields(page.globals_fields@) =~= Seq::empty());
    page
}

/// The first subcommand of the given name at or behind `from`.
pub open spec fn sub_from(all: Seq<Sub>, name: Seq<char>, from: nat) -> Option<nat>
    decreases all.len() - from,
{
    if from >= all.len() {
        None
    } else if all[from as int].name == name {
        Some(from)
    } else {
        sub_from(all, name, from + 1)
    }
}

/// The help page of a subcommand of a built-in command.
pub open spec fn builtin_sub_page(cli: Seq<char>, builtin: Builtin, name: Seq<char>) -> Shown {
    Shown::CommandHelp(
        cli + " "@ + builtin.name + " "@ + name,
        match sub_from(builtin.subcommands, name, 0) {
            Some(i) => {
                let sub = builtin.subcommands[i as int];
                bare_page(
                    Seq::empty(),
                    Some(sub.description),
                    None,
                    sub.options,
                    sub.option_aliases,
                )
            },
            None => bare_page(Seq::empty(), None, None, Seq::empty(), Seq::empty()),
        },
    )
}

/// Makes the help page of a subcommand of a built-in command.
pub fn format_builtin_subcommand_help(cli_name: &str, builtin: &BuiltinCommand, sub_name: &str) -> (r:
    Piece)
    ensures
        r@ == builtin_sub_page(cli_name@, builtin@, sub_name@),
{
    let lead = cat3(cli_name, " ", builtin.name.as_str());
    let name = cat3(lead.as_str(), " ", sub_name);
    let ghost all = subs(builtin.subcommands@);
    let none: Vec<FieldMeta> = Vec::new();
    assert(fields(none@) =~= Seq::empty());
    let mut i: usize = 0;
    while i < builtin.subcommands.len()
        invariant
            i <= builtin.subcommands@.len(),
            all == subs(builtin.subcommands@),
            all == builtin@.subcommands,
            fields(none@) == Seq::<Field>::empty(),
            name@ == cli_name@ + " "@ + builtin@.name + " "@ + sub_name@,
            sub_from(all, sub_name@, 0) == sub_from(all, sub_name@, i as nat),
        decreases builtin.subcommands.len() - i,
    {
        assert(all[i as int] == builtin.subcommands@[i as int]@);
        if same(builtin.subcommands[i].name.as_str(), sub_name) {
            let sub = &builtin.subcommands[i];
            let page = make_bare_page(
                none,
                Some(sub.description.clone()),
                None,
                copy_fields(&sub.options_fields),
                copy_aliases(&sub.option_aliases),
            );
            return Piece::CommandHelp { name, page };
        }
        i += 1;
    }
    let no_options: Vec<FieldMeta> = Vec::new();
    let no_aliases: Vec<(String, char)> = Vec::new();
    assert(fields(no_options@) =~= Seq::empty());
    assert(keyed(no_aliases@) =~= Seq::empty());
    let page = make_bare_page(none, None, None, no_options, no_aliases);
    Piece::CommandHelp { name, page }
}

/// The help page of the built-in command that prints completion scripts.
pub open spec fn completions_page(cli: Seq<char>, builtin: Builtin) -> Shown {
    Shown::CommandHelp(
        cli + " completions"@,
        bare_page(
            builtin.args,
            Some(builtin.description),
            builtin.hint,
            Seq::empty(),
            Seq::empty(),
        ),
    )
}

/// Makes the help page of the built-in command that prints completion scripts.
pub fn format_completions_help(cli_name: &str, builtin: &BuiltinCommand) -> (r: Piece)
    ensures
        r@ == completions_page(cli_name@, builtin@),
{
    let no_options: Vec<FieldMeta> = Vec::new();
    let no_aliases: Vec<(String, char)> = Vec::new();
    assert(fields(no_options@) =~= Seq::empty());
    assert(keyed(no_aliases@) =~= Seq::empty());
    let page = make_bare_page(
        copy_fields(&builtin.args_fields),
        Some(builtin.description.clone()),
        copy_opt(&builtin.hint),
        no_options,
        no_aliases,
    );
    Piece::CommandHelp { name: crate::text::cat(cli_name, " completions"), page }
}

/// A page stands below the banner exactly where the banner is for all, or for the kind of
/// reader there is.
pub proof fn law_pages_stand_below_the_banner(
    banner: Option<BannerMode>,
    human: bool,
    page: Shown,
)
    ensures
        ({
            let pieces = below_banner(banner, human, page);
            &&& pieces.last() == page
            &&& pieces.len() == 1 || (pieces.len() == 2 && pieces[0] == Shown::Banner)
            &&& pieces.len() == 2 <==> banner == Some(BannerMode::All) || (banner == Some(
                BannerMode::Human,
            ) && human) || (banner == Some(BannerMode::Agent) && !human)
        }),
{
}

/// The page of a command shows all that the command was declared with, and the options
/// that hold everywhere.
pub proof fn law_command_pages_show_the_command(cli: Cli, command: CommandDef, path: Seq<char>)
    ensures
        leaf_page(cli, command, path) matches Shown::CommandHelp(name, page) && {
            &&& path == cli.name@ ==> name == cli.name@
            &&& path != cli.name@ ==> name == cli.name@ + " "@ + path
            &&& page.args == fields(command.args_fields@)
            &&& page.options == fields(command.options_fields@)
            &&& page.env == fields(command.env_fields@)
            &&& page.description == opt_text(command.description)
            &&& page.examples == examples_of(command.examples@)
            &&& page.hint == opt_text(command.hint)
            &&& page.option_aliases == keyed(command.aliases@)
            &&& page.globals == fields(cli.globals_fields@)
            &&& page.global_aliases == keyed(cli.global_aliases@)
            &&& !page.hide_global_options
            &&& page.root <==> path == cli.name@
            &&& path == cli.name@ ==> page.version == opt_text(cli.version) && page.commands.len()
                == cli.commands@.len()
            &&& path != cli.name@ ==> page.version is None && page.commands.len() == 0
            &&& path != cli.name@ && command.command_aliases@.len() > 0 ==> page.aliases == Some(
                texts(command.command_aliases@),
            )
            &&& path == cli.name@ && cli.aliases@.len() > 0 ==> page.aliases == Some(
                texts(cli.aliases@),
            )
        },
{
}

/// The page of a group, and the front page, list every command of the level with its
/// description.
pub proof fn law_group_pages_list_the_commands(
    cli: Cli,
    path: Seq<char>,
    description: Option<Seq<char>>,
    commands: Seq<(String, CommandEntry)>,
    asked: bool,
    i: int,
)
    ensures
        group_page(cli, path, description, commands, asked) matches Shown::RootHelp(name, page) && {
            &&& path == cli.name@ ==> name == cli.name@
            &&& path != cli.name@ ==> name == cli.name@ + " "@ + path
            &&& page.description == description
            &&& page.commands.len() == commands.len()
            &&& 0 <= i < commands.len() ==> page.commands[i].0 == commands[i].0@
                && page.commands[i].1 == crate::cli::tree::description_of(commands[i].1)
            &&& page.globals == fields(cli.globals_fields@)
            &&& page.root <==> path == cli.name@
            &&& page.version is Some ==> asked && path == cli.name@
        },
        front_page(cli) matches Shown::RootHelp(name, page) && {
            &&& name == cli.name@
            &&& page.description == opt_text(cli.description)
            &&& page.version == opt_text(cli.version)
            &&& page.root
            &&& page.commands.len() == cli.commands@.len()
        },
{
}

/// The page of a built-in command lists its subcommands, and that of a subcommand shows
/// its options.
pub proof fn law_builtin_pages_show_subcommands(
    cli: Seq<char>,
    builtin: Builtin,
    name: Seq<char>,
    i: int,
)
    requires
        0 <= i < builtin.subcommands.len(),
        builtin.subcommands[i].name == name,
        forall|j: int| 0 <= j < i ==> (#[trigger] builtin.subcommands[j]).name != name,
    ensures
        builtin_page(cli, builtin) matches Shown::RootHelp(title, page) && title == cli + " "@
            + builtin.name && page.commands.len() == builtin.subcommands.len() && page.commands[i].0
            == name && page.description == Some(builtin.description),
        builtin_sub_page(cli, builtin, name) matches Shown::CommandHelp(title, page) && title == cli
            + " "@ + builtin.name + " "@ + name && page.description == Some(
            builtin.subcommands[i].description,
        ) && page.options == builtin.subcommands[i].options && page.option_aliases
            == builtin.subcommands[i].option_aliases && page.hide_global_options,
{
    lemma_sub_from(builtin.subcommands, name, i, 0);
}

proof fn lemma_sub_from(all: Seq<Sub>, name: Seq<char>, i: int, from: nat)
    requires
        from <= i < all.len(),
        all[i].name == name,
        forall|j: int| from <= j < i ==> (#[trigger] all[j]).name != name,
    ensures
        sub_from(all, name, from) == Some(i as nat),
    decreases i - from,
{
    if from < i {
        lemma_sub_from(all, name, i, from + 1);
    }
}

} // verus!
