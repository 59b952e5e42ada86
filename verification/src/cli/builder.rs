//! Building a command-line interface.

use vstd::prelude::*;
use crate::cli::completing::{unite, united};
use crate::cli::tree::{resolved, CommandEntry, Target};
use crate::cli::walk::{
    collect_leaves, entry_sorted, found, leaves, lemma_tree_sorted_inserted, tree_sorted,
};
use crate::command::CommandDef;
use crate::mcp::filter::{McpDiscovery, McpToolFilter};
use crate::output::{Format, OutputPolicy};
use crate::schema::FieldMeta;
use crate::table;
use crate::table::{
    inserted, keyed, keys, lemma_lookup_inserted, lemma_position_from, lemma_sorted_inserted,
    lookup, position_from, sorted,
};
use crate::text::{same, texts};

verus! {

/// Injectable process inputs used by the shared CLI execution path.
#[derive(Debug)]
pub struct Runtime {
    /// Actual binary name used in user-facing output.
    pub display_name: String,
    /// Environment variables visible to command schemas.
    pub env: Vec<(String, String)>,
    /// Whether output is being rendered for a human terminal.
    pub human: bool,
}

impl Runtime {
    /// Creates a runtime using explicit process inputs.
    pub fn new(display_name: String, env: Vec<(String, String)>, human: bool) -> (r: Self)
        ensures
            r.display_name == display_name,
            r.env == env,
            r.human == human,
    {
        Runtime { display_name, env, human }
    }
}

/// Controls which consumers see a root help banner.
#[derive(Debug, Clone, Copy, PartialEq, Eq, Structural)]
pub enum BannerMode {
    /// Show the banner to human and agent consumers.
    All,
    /// Show the banner only when stdout is a terminal.
    Human,
    /// Show the banner only to non-terminal agent consumers.
    Agent,
}

impl Default for BannerMode {
    fn default() -> (r: Self)
        ensures
            r == BannerMode::All,
    {
        BannerMode::All
    }
}

/// Config file options for a CLI.
#[derive(Debug)]
pub struct ConfigOptions {
    /// The flag name for specifying a config file (e.g. `"config"` for `--config`).
    pub flag: String,
    /// Ordered list of file paths to search for config files.
    pub files: Vec<String>,
}

/// Options for the MCP server.
#[derive(Debug)]
pub struct McpServeOptions {
    /// CLI version string.
    pub version: Option<String>,
    /// Instructions describing how clients should use the server.
    pub instructions: Option<String>,
    /// Tool discovery and filtering configuration.
    pub tools: McpToolFilter,
}

impl Default for McpServeOptions {
    fn default() -> (r: Self)
        ensures
            r.version is None,
            r.instructions is None,
            r.tools.discovery == McpDiscovery::Progressive,
            r.tools.included@.len() == 0,
            r.tools.excluded@.len() == 0,
    {
        McpServeOptions { version: None, instructions: None, tools: McpToolFilter::default() }
    }
}

/// What a fetch gateway is registered with.
#[derive(Debug)]
pub struct FetchGatewayOptions {
    /// Description of the gateway.
    pub description: Option<String>,
    /// Base path prefix for request URLs.
    pub base_path: Option<String>,
    /// Output policy for the gateway.
    pub output_policy: Option<OutputPolicy>,
}

/// The main CLI builder.
///
/// Use [`Cli::create`] to construct a new CLI, then chain method calls to
/// configure it.
pub struct Cli {
    /// The CLI name (used as the binary name in help text).
    pub name: String,
    /// A short description of the CLI.
    pub description: Option<String>,
    /// The CLI version string.
    pub version: Option<String>,
    /// Alternative binary names for this CLI.
    pub aliases: Vec<String>,
    /// Who sees the content above root help, where there is any.
    pub banner: Option<BannerMode>,
    /// The command tree.
    pub commands: Vec<(String, CommandEntry)>,
    /// Root-level middleware that runs around every command.
    pub middleware: Vec<usize>,
    /// Root command (for CLIs with a default command).
    pub root_command: Option<CommandDef>,
    /// CLI-level environment variable fields.
    pub env_fields: Vec<FieldMeta>,
    /// CLI-level global option fields.
    pub globals_fields: Vec<FieldMeta>,
    /// CLI-level global option aliases.
    pub global_aliases: Vec<(String, char)>,
    /// Middleware variable fields.
    pub vars_fields: Vec<FieldMeta>,
    /// Config file options.
    pub config: Option<ConfigOptions>,
    /// Default output policy.
    pub output_policy: Option<OutputPolicy>,
    /// Default output format.
    pub format: Option<Format>,
    /// MCP server instructions, discovery, and filtering options.
    pub mcp_options: McpServeOptions,
}

/// Whether the name is that of a built-in flag.
pub open spec fn builtin_flag(name: Seq<char>) -> bool {
    ||| name == "config-schema"@
    ||| name == "filter-output"@
    ||| name == "format"@
    ||| name == "full-output"@
    ||| name == "help"@
    ||| name == "json"@
    ||| name == "llms"@
    ||| name == "llms-full"@
    ||| name == "mcp"@
    ||| name == "schema"@
    ||| name == "token-count"@
    ||| name == "token-limit"@
    ||| name == "token-offset"@
    ||| name == "version"@
}

/// Whether the name is that of a built-in flag.
pub fn is_builtin_flag(name: &str) -> (r: bool)
    ensures
        r == builtin_flag(name@),
{
    same(name, "config-schema") || same(name, "filter-output") || same(name, "format") || same(
        name,
        "full-output",
    ) || same(name, "help") || same(name, "json") || same(name, "llms") || same(name, "llms-full")
        || same(name, "mcp") || same(name, "schema") || same(name, "token-count") || same(
        name,
        "token-limit",
    ) || same(name, "token-offset") || same(name, "version")
}

/// Whether one of the options has the given name.
pub open spec fn names_option(globals: Seq<FieldMeta>, name: Seq<char>) -> bool {
    exists|i: int| 0 <= i < globals.len() && (#[trigger] globals[i]).name@ == name
}

/// Whether the alias is one of those of the table.
pub open spec fn alias_taken(aliases: Seq<(Seq<char>, char)>, alias: char) -> bool {
    exists|i: int| 0 <= i < aliases.len() && (#[trigger] aliases[i]).1 == alias
}

/// Whether an option of a command has the name or the alias of a global option.
pub open spec fn clashes(
    command: CommandDef,
    field: FieldMeta,
    globals: Seq<FieldMeta>,
    aliases: Seq<(Seq<char>, char)>,
) -> bool {
    names_option(globals, field.name@) || (lookup(keyed(command.aliases@), field.name@) matches Some(
        alias,
    ) && alias_taken(aliases, alias))
}

/// Whether no option of a command has the name or the alias of a global option.
pub open spec fn command_fits(
    command: CommandDef,
    globals: Seq<FieldMeta>,
    aliases: Seq<(Seq<char>, char)>,
) -> bool {
    forall|i: int|
        0 <= i < command.options_fields@.len() ==> !clashes(
            command,
            #[trigger] command.options_fields@[i],
            globals,
            aliases,
        )
}

/// Whether [`command_fits`] holds of every leaf command of a tree.
pub open spec fn tree_fits(
    commands: Seq<(String, CommandEntry)>,
    globals: Seq<FieldMeta>,
    aliases: Seq<(Seq<char>, char)>,
) -> bool {
    forall|k: int|
        0 <= k < leaves(commands, Seq::empty()).len() ==> command_fits(
            (#[trigger] leaves(commands, Seq::empty())[k]).1,
            globals,
            aliases,
        )
}

/// Whether [`command_fits`] holds of the root command and of every leaf command.
pub open spec fn all_fit(
    root: Option<CommandDef>,
    commands: Seq<(String, CommandEntry)>,
    globals: Seq<FieldMeta>,
    aliases: Seq<(Seq<char>, char)>,
) -> bool {
    (root matches Some(def) ==> command_fits(def, globals, aliases)) && tree_fits(
        commands,
        globals,
        aliases,
    )
}

/// Whether the fields can be global options: none has the name of a built-in
/// flag or the alias of a built-in short flag.
pub open spec fn globals_allowed(fields: Seq<FieldMeta>) -> bool {
    forall|i: int|
        0 <= i < fields.len() ==> !builtin_flag((#[trigger] fields[i]).cli_name@)
            && fields[i].alias != Some('h')
}

/// The aliases with those of the fields stored in them.
pub open spec fn with_field_aliases(
    aliases: Seq<(Seq<char>, char)>,
    fields: Seq<FieldMeta>,
) -> Seq<(Seq<char>, char)>
    decreases fields.len(),
{
    if fields.len() == 0 {
        aliases
    } else {
        let head = with_field_aliases(aliases, fields.drop_last());
        match fields.last().alias {
            Some(alias) => inserted(head, fields.last().name@, alias),
            None => head,
        }
    }
}

/// Whether the alias is one of those of the table.
fn is_alias_taken(aliases: &Vec<(String, char)>, alias: char) -> (r: bool)
    ensures
        r == alias_taken(keyed(aliases@), alias),
{
    let ghost all = keyed(aliases@);
    let mut i: usize = 0;
    while i < aliases.len()
        invariant
            i <= aliases@.len(),
            all == keyed(aliases@),
            forall|k: int| 0 <= k < i ==> (#[trigger] all[k]).1 != alias,
        decreases aliases.len() - i,
    {
        assert(all[i as int] == (aliases@[i as int].0@, aliases@[i as int].1));
        if aliases[i].1 == alias {
            return true;
        }
        i += 1;
    }
    false
}

/// Whether one of the options has the given name.
fn is_option_name(globals: &Vec<FieldMeta>, name: &str) -> (r: bool)
    ensures
        r == names_option(globals@, name@),
{
    let mut i: usize = 0;
    while i < globals.len()
        invariant
            i <= globals@.len(),
            forall|k: int| 0 <= k < i ==> (#[trigger] globals@[k]).name@ != name@,
        decreases globals.len() - i,
    {
        if same(globals[i].name.as_str(), name) {
            return true;
        }
        i += 1;
    }
    false
}

/// Whether no option of a command has the name or the alias of a global option.
pub fn fits_globals(
    command: &CommandDef,
    globals_fields: &Vec<FieldMeta>,
    global_aliases: &Vec<(String, char)>,
) -> (r: bool)
    ensures
        r == command_fits(*command, globals_fields@, keyed(global_aliases@)),
{
    let ghost aliases = keyed(global_aliases@);
    let mut i: usize = 0;
    while i < command.options_fields.len()
        invariant
            i <= command.options_fields@.len(),
            aliases == keyed(global_aliases@),
            forall|k: int|
                0 <= k < i ==> !clashes(
                    *command,
                    #[trigger] command.options_fields@[k],
                    globals_fields@,
                    aliases,
                ),
        decreases command.options_fields.len() - i,
    {
        let field = &command.options_fields[i];
        if is_option_name(globals_fields, field.name.as_str()) {
            return false;
        }
        if let Some(alias) = table::get(&command.aliases, field.name.as_str()) {
            if is_alias_taken(global_aliases, *alias) {
                return false;
            }
        }
        i += 1;
    }
    true
}

/// Whether no leaf command of a tree has an option with the name or the alias
/// of a global option.
pub fn tree_fits_globals(
    commands: &Vec<(String, CommandEntry)>,
    globals_fields: &Vec<FieldMeta>,
    global_aliases: &Vec<(String, char)>,
) -> (r: bool)
    ensures
        r == tree_fits(commands@, globals_fields@, keyed(global_aliases@)),
{
    let none: Vec<String> = Vec::new();
    assert(texts(none@) =~= Seq::empty());
    let all = collect_leaves(commands, &none);
    let ghost pairs = found(all@);
    let ghost aliases = keyed(global_aliases@);
    let mut i: usize = 0;
    while i < all.len()
        invariant
            i <= all@.len(),
            pairs == found(all@),
            pairs == leaves(commands@, Seq::empty()),
            aliases == keyed(global_aliases@),
            forall|k: int|
                0 <= k < i ==> command_fits((#[trigger] pairs[k]).1, globals_fields@, aliases),
        decreases all.len() - i,
    {
        assert(pairs[i as int].1 == *all@[i as int].command);
        if !fits_globals(all[i].command, globals_fields, global_aliases) {
            return false;
        }
        i += 1;
    }
    true
}

/// Whether the fields can be global options.
pub fn are_globals_allowed(fields: &Vec<FieldMeta>) -> (r: bool)
    ensures
        r == globals_allowed(fields@),
{
    let mut i: usize = 0;
    while i < fields.len()
        invariant
            i <= fields@.len(),
            forall|k: int|
                0 <= k < i ==> !builtin_flag((#[trigger] fields@[k]).cli_name@) && fields@[k].alias
                    != Some('h'),
        decreases fields.len() - i,
    {
        if is_builtin_flag(fields[i].cli_name.as_str()) {
            return false;
        }
        if let Some(alias) = fields[i].alias {
            if alias == 'h' {
                return false;
            }
        }
        i += 1;
    }
    true
}

/// Stores the aliases of the fields in a table.
pub fn store_aliases(aliases: &mut Vec<(String, char)>, fields: &Vec<FieldMeta>)
    ensures
        keyed(final(aliases)@) == with_field_aliases(keyed(old(aliases)@), fields@),
{
    let ghost start = keyed(aliases@);
    let mut i: usize = 0;
    while i < fields.len()
        invariant
            i <= fields@.len(),
            keyed(aliases@) == with_field_aliases(start, fields@.take(i as int)),
        decreases fields.len() - i,
    {
        assert(fields@.take(i + 1).drop_last() =~= fields@.take(i as int));
        if let Some(alias) = fields[i].alias {
            table::insert(aliases, fields[i].name.clone(), alias);
        }
        i += 1;
    }
    assert(fields@.take(fields@.len() as int) =~= fields@);
}

/// The entry that a mounted command line becomes: a leaf where it has a root
/// command and no commands, and a group otherwise.
pub open spec fn mounted(cli: Cli) -> CommandEntry {
    match cli.root_command {
        Some(def) if cli.commands@.len() == 0 => CommandEntry::Leaf(def),
        _ => CommandEntry::Group {
            description: cli.description,
            commands: cli.commands,
            middleware: cli.middleware,
            output_policy: cli.output_policy,
        },
    }
}

/// Everything of a command line but its command tree.
pub open spec fn same_but_commands(a: Cli, b: Cli) -> bool {
    a == (Cli { commands: a.commands, ..b })
}

impl Cli {
    /// Whether the names are in order on every level of the command tree, and
    /// in the table of global aliases.
    pub open spec fn well_formed(&self) -> bool {
        tree_sorted(self.commands@) && sorted(keyed(self.global_aliases@))
    }

    /// Creates a new CLI with the given name.
    pub fn create(name: String) -> (r: Self)
        ensures
            r.well_formed(),
            r.name == name,
            r.description is None,
            r.version is None,
            r.aliases@.len() == 0,
            r.banner is None,
            r.commands@.len() == 0,
            r.middleware@.len() == 0,
            r.root_command is None,
            r.env_fields@.len() == 0,
            r.globals_fields@.len() == 0,
            r.global_aliases@.len() == 0,
            r.vars_fields@.len() == 0,
            r.config is None,
            r.output_policy is None,
            r.format is None,
            r.mcp_options.version is None,
            r.mcp_options.instructions is None,
            r.mcp_options.tools.discovery == McpDiscovery::Progressive,
            r.mcp_options.tools.included@.len() == 0,
            r.mcp_options.tools.excluded@.len() == 0,
    {
        Cli {
            name,
            description: None,
            version: None,
            aliases: Vec::new(),
            banner: None,
            commands: Vec::new(),
            middleware: Vec::new(),
            root_command: None,
            env_fields: Vec::new(),
            globals_fields: Vec::new(),
            global_aliases: Vec::new(),
            vars_fields: Vec::new(),
            config: None,
            output_policy: None,
            format: None,
            mcp_options: McpServeOptions::default(),
        }
    }

    /// Sets the CLI description.
    pub fn description(self, desc: String) -> (r: Self)
        ensures
            r == (Cli { description: Some(desc), ..self }),
    {
        let mut cli = self;
        cli.description = Some(desc);
        cli
    }

    /// Sets the CLI version.
    pub fn version(self, v: String) -> (r: Self)
        ensures
            r == (Cli { version: Some(v), ..self }),
    {
        let mut cli = self;
        cli.version = Some(v);
        cli
    }

    /// Adds alternative binary names for this CLI.
    pub fn aliases(self, aliases: Vec<String>) -> (r: Self)
        ensures
            r == (Cli { aliases, ..self }),
    {
        let mut cli = self;
        cli.aliases = aliases;
        cli
    }

    /// Configures who sees the content above root help output.
    pub fn banner(self, mode: BannerMode) -> (r: Self)
        ensures
            r == (Cli { banner: Some(mode), ..self }),
    {
        let mut cli = self;
        cli.banner = Some(mode);
        cli
    }

    /// Sets the default output format.
    pub fn format(self, format: Format) -> (r: Self)
        ensures
            r == (Cli { format: Some(format), ..self }),
    {
        let mut cli = self;
        cli.format = Some(format);
        cli
    }

    /// Sets the output policy.
    pub fn output_policy(self, policy: OutputPolicy) -> (r: Self)
        ensures
            r == (Cli { output_policy: Some(policy), ..self }),
    {
        let mut cli = self;
        cli.output_policy = Some(policy);
        cli
    }

    /// Configures MCP server instructions, discovery, and tool filtering.
    pub fn mcp(self, options: McpServeOptions) -> (r: Self)
        ensures
            r == (Cli { mcp_options: options, ..self }),
    {
        let mut cli = self;
        cli.mcp_options = options;
        cli
    }

    /// Sets the root command (for CLIs that have a default action).
    pub fn root(self, def: CommandDef) -> (r: Self)
        ensures
            r == (Cli { root_command: Some(def), ..self }),
    {
        let mut cli = self;
        cli.root_command = Some(def);
        cli
    }

    /// Sets the CLI-level environment variable fields.
    pub fn env_fields(self, fields: Vec<FieldMeta>) -> (r: Self)
        ensures
            r == (Cli { env_fields: fields, ..self }),
    {
        let mut cli = self;
        cli.env_fields = fields;
        cli
    }

    /// Sets CLI-level global option fields and extracts their aliases.
    pub fn globals_fields(self, fields: Vec<FieldMeta>) -> (r: Self)
        requires
            globals_allowed(fields@),
            all_fit(
                self.root_command,
                self.commands@,
                fields@,
                with_field_aliases(keyed(self.global_aliases@), fields@),
            ),
        ensures
            r == (Cli { globals_fields: fields, global_aliases: r.global_aliases, ..self }),
            keyed(r.global_aliases@) == with_field_aliases(keyed(self.global_aliases@), fields@),
            self.well_formed() ==> r.well_formed(),
    {
        let mut cli = self;
        proof {
            lemma_field_aliases_sorted(keyed(cli.global_aliases@), fields@);
        }
        store_aliases(&mut cli.global_aliases, &fields);
        cli.globals_fields = fields;
        cli
    }

    /// Adds or overrides aliases for CLI-level global options.
    pub fn global_aliases(self, aliases: Vec<(String, char)>) -> (r: Self)
        requires
            !alias_taken(keyed(aliases@), 'h'),
            all_fit(
                self.root_command,
                self.commands@,
                self.globals_fields@,
                united(keyed(self.global_aliases@), keyed(aliases@)),
            ),
        ensures
            r == (Cli { global_aliases: r.global_aliases, ..self }),
            keyed(r.global_aliases@) == united(keyed(self.global_aliases@), keyed(aliases@)),
            self.well_formed() ==> r.well_formed(),
    {
        let mut cli = self;
        proof {
            lemma_united_sorted(keyed(cli.global_aliases@), keyed(aliases@));
        }
        unite(&mut cli.global_aliases, &aliases);
        cli
    }

    /// Sets the middleware variable fields.
    pub fn vars_fields(self, fields: Vec<FieldMeta>) -> (r: Self)
        ensures
            r == (Cli { vars_fields: fields, ..self }),
    {
        let mut cli = self;
        cli.vars_fields = fields;
        cli
    }

    /// Configures config file loading.
    pub fn config(self, options: ConfigOptions) -> (r: Self)
        ensures
            r == (Cli { config: Some(options), ..self }),
    {
        let mut cli = self;
        cli.config = Some(options);
        cli
    }

    /// Puts an entry into the command tree.
    pub(crate) fn with_entry(self, name: String, entry: CommandEntry) -> (r: Self)
        ensures
            same_but_commands(r, self),
            keyed(r.commands@) == inserted(keyed(self.commands@), name@, entry),
            self.well_formed() && entry_sorted(entry) ==> r.well_formed(),
    {
        let mut cli = self;
        let ghost was = cli.commands@;
        let ghost text = name@;
        table::insert(&mut cli.commands, name, entry);
        proof {
            if tree_sorted(was) && entry_sorted(entry) {
                lemma_tree_sorted_inserted(was, cli.commands@, text, entry);
            }
        }
        cli
    }

    /// Registers a command.
    pub fn command(self, name: String, def: CommandDef) -> (r: Self)
        requires
            command_fits(def, self.globals_fields@, keyed(self.global_aliases@)),
        ensures
            same_but_commands(r, self),
            keyed(r.commands@) == inserted(keyed(self.commands@), name@, CommandEntry::Leaf(def)),
            self.well_formed() ==> r.well_formed(),
    {
        self.with_entry(name, CommandEntry::Leaf(def))
    }

    /// Mounts a sub-CLI as a command group.
    ///
    /// If the sub-CLI has a root command and no subcommands, it is mounted
    /// as a leaf command (a "leaf CLI"). Otherwise it is mounted as a group.
    pub fn group(self, cli: Cli) -> (r: Self)
        requires
            all_fit(
                cli.root_command,
                cli.commands@,
                self.globals_fields@,
                keyed(self.global_aliases@),
            ),
        ensures
            same_but_commands(r, self),
            keyed(r.commands@) == inserted(keyed(self.commands@), cli.name@, mounted(cli)),
            self.well_formed() && cli.well_formed() ==> r.well_formed(),
    {
        proof {
            reveal_with_fuel(entry_sorted, 2);
        }
        let name = cli.name;
        match cli.root_command {
            Some(def) => {
                if cli.commands.len() == 0 {
                    return self.with_entry(name, CommandEntry::Leaf(def));
                }
            },
            None => {},
        }
        let entry = CommandEntry::Group {
            description: cli.description,
            commands: cli.commands,
            middleware: cli.middleware,
            output_policy: cli.output_policy,
        };
        self.with_entry(name, entry)
    }

    /// Registers a fetch gateway command.
    ///
    /// A fetch gateway proxies curl-style argv into a fetch handler, which is
    /// known by its number.
    pub fn fetch_gateway(self, name: String, handler: usize, options: FetchGatewayOptions) -> (r:
        Self)
        ensures
            same_but_commands(r, self),
            keyed(r.commands@) == inserted(
                keyed(self.commands@),
                name@,
                CommandEntry::FetchGateway {
                    description: options.description,
                    base_path: options.base_path,
                    output_policy: options.output_policy,
                    handler,
                },
            ),
            self.well_formed() ==> r.well_formed(),
    {
        self.with_entry(
            name,
            CommandEntry::FetchGateway {
                description: options.description,
                base_path: options.base_path,
                output_policy: options.output_policy,
                handler,
            },
        )
    }

    /// Registers middleware that runs around every command.
    pub fn use_middleware(self, handler: usize) -> (r: Self)
        ensures
            r == (Cli { middleware: r.middleware, ..self }),
            r.middleware@ == self.middleware@.push(handler),
    {
        let mut cli = self;
        cli.middleware.push(handler);
        cli
    }
}

proof fn lemma_field_aliases_sorted(aliases: Seq<(Seq<char>, char)>, fields: Seq<FieldMeta>)
    ensures
        sorted(aliases) ==> sorted(with_field_aliases(aliases, fields)),
    decreases fields.len(),
{
    if fields.len() > 0 && sorted(aliases) {
        lemma_field_aliases_sorted(aliases, fields.drop_last());
        if let Some(alias) = fields.last().alias {
            lemma_sorted_inserted(
                with_field_aliases(aliases, fields.drop_last()),
                fields.last().name@,
                alias,
            );
        }
    }
}

proof fn lemma_united_sorted(base: Seq<(Seq<char>, char)>, more: Seq<(Seq<char>, char)>)
    ensures
        sorted(base) ==> sorted(united(base, more)),
    decreases more.len(),
{
    if more.len() > 0 && sorted(base) {
        lemma_united_sorted(base, more.drop_last());
        lemma_sorted_inserted(united(base, more.drop_last()), more.last().0, more.last().1);
    }
}

// ---------------------------------------------------------------------------
// Laws
// ---------------------------------------------------------------------------

/// A registered command is the one that its name runs, and it is handed the
/// words behind its name.
pub proof fn law_registered_command_runs(
    was: Seq<(String, CommandEntry)>,
    now: Seq<(String, CommandEntry)>,
    name: Seq<char>,
    def: CommandDef,
    rest: Seq<Seq<char>>,
)
    requires
        keyed(now) == inserted(keyed(was), name, CommandEntry::Leaf(def)),
    ensures
        resolved(now, seq![name] + rest) == (Target::Leaf {
            command: def,
            path: seq![name],
            rest,
            middleware: Seq::empty(),
            policy: def.output_policy,
        }),
{
    let words = seq![name] + rest;
    lemma_lookup_inserted(keyed(was), name, CommandEntry::Leaf(def), name);
    let all = keys(keyed(now));
    lemma_position_from(all, name, 0);
    let i = position_from(all, name, 0)->0 as int;
    assert(keyed(now)[i] == (now[i].0@, now[i].1));
    assert(all[i] == now[i].0@);
    assert(words.skip(1) =~= rest);
    assert(words[0] == name);
}

/// Registering a command leaves what the other names lead to as it was.
pub proof fn law_other_names_are_kept(
    was: Seq<(String, CommandEntry)>,
    now: Seq<(String, CommandEntry)>,
    name: Seq<char>,
    entry: CommandEntry,
    other: Seq<char>,
)
    requires
        keyed(now) == inserted(keyed(was), name, entry),
        other != name,
    ensures
        lookup(keyed(now), other) == lookup(keyed(was), other),
{
    lemma_lookup_inserted(keyed(was), name, entry, other);
}

/// A global option is allowed unless it has the name of a flag that every command line
/// has, or the short form of the one for help.
pub proof fn law_flags_of_every_command_line_are_taken(fields: Seq<FieldMeta>, i: int)
    requires
        0 <= i < fields.len(),
    ensures
        fields[i].cli_name@ == "help"@ || fields[i].cli_name@ == "version"@ || fields[i].cli_name@
            == "format"@ || fields[i].cli_name@ == "json"@ || fields[i].cli_name@ == "llms"@
            || fields[i].cli_name@ == "llms-full"@ || fields[i].cli_name@ == "mcp"@
            || fields[i].cli_name@ == "schema"@ || fields[i].cli_name@ == "config-schema"@
            || fields[i].cli_name@ == "filter-output"@ || fields[i].cli_name@ == "full-output"@
            || fields[i].cli_name@ == "token-count"@ || fields[i].cli_name@ == "token-limit"@
            || fields[i].cli_name@ == "token-offset"@ || fields[i].alias == Some('h')
            ==> !globals_allowed(fields),
        globals_allowed(Seq::empty()),
{
}

/// The short form of a field is found under its name, as it was given last.
pub proof fn law_short_forms_are_found(
    aliases: Seq<(Seq<char>, char)>,
    fields: Seq<FieldMeta>,
    one: FieldMeta,
    other: Seq<char>,
)
    ensures
        one.alias matches Some(c) ==> lookup(
            with_field_aliases(aliases, fields.push(one)),
            one.name@,
        ) == Some(c),
        one.alias is None ==> with_field_aliases(aliases, fields.push(one)) == with_field_aliases(
            aliases,
            fields,
        ),
        other != one.name@ ==> lookup(with_field_aliases(aliases, fields.push(one)), other)
            == lookup(with_field_aliases(aliases, fields), other),
        with_field_aliases(aliases, Seq::empty()) == aliases,
{
    assert(fields.push(one).drop_last() =~= fields);
    if let Some(c) = one.alias {
        let before = with_field_aliases(aliases, fields);
        crate::table::lemma_lookup_inserted(before, one.name@, c, one.name@);
        crate::table::lemma_lookup_inserted(before, one.name@, c, other);
    }
}

/// A command line that is mounted is a command exactly where it has one of its own and no
/// others, and a group of its commands otherwise.
pub proof fn law_command_lines_are_mounted(cli: Cli)
    ensures
        cli.commands@.len() == 0 ==> (cli.root_command matches Some(def) ==> mounted(cli)
            == CommandEntry::Leaf(def)),
        cli.commands@.len() > 0 || cli.root_command is None ==> (mounted(cli) matches CommandEntry::Group {
            description,
            commands,
            middleware,
            output_policy,
        } && description == cli.description && commands == cli.commands && middleware
            == cli.middleware && output_policy == cli.output_policy),
{
}

/// An option of a command clashes with a global one of its name, or with one that has its
/// short form; a command without options clashes with none.
pub proof fn law_clashing_options_do_not_fit(
    command: CommandDef,
    globals: Seq<FieldMeta>,
    aliases: Seq<(Seq<char>, char)>,
    i: int,
    j: int,
)
    requires
        0 <= i < command.options_fields@.len(),
    ensures
        0 <= j < globals.len() && globals[j].name@ == command.options_fields@[i].name@
            ==> !command_fits(command, globals, aliases),
        0 <= j < aliases.len() && lookup(
            keyed(command.aliases@),
            command.options_fields@[i].name@,
        ) == Some(aliases[j].1) ==> !command_fits(command, globals, aliases),
        globals.len() == 0 && aliases.len() == 0 ==> command_fits(command, globals, aliases),
{
    let field = command.options_fields@[i];
    if 0 <= j < globals.len() && globals[j].name@ == field.name@ {
        assert(names_option(globals, field.name@));
        assert(clashes(command, field, globals, aliases));
    }
    if 0 <= j < aliases.len() && lookup(keyed(command.aliases@), field.name@) == Some(aliases[j].1) {
        assert(alias_taken(aliases, aliases[j].1));
        assert(clashes(command, field, globals, aliases));
    }
}

} // verus!
