//! The commands that every command-line interface has.

use vstd::prelude::*;
use crate::agents::{slug_of, tool_slug, CLAUDE_CONFIG_DIR};
use crate::cli::cta::{bytes, spaces, spaces_text};
use crate::schema::{fields, Field, FieldMeta, FieldType, Kind};
use crate::table::keyed;
use crate::text::{cat, cat3, join, join_texts, opt_text, same, texts};
use crate::value::{Json, Number, Value};

verus! {

/// A built-in command.
#[derive(Debug)]
pub struct BuiltinCommand {
    /// Name.
    pub name: String,
    /// Human-readable description.
    pub description: String,
    /// Positional arguments.
    pub args_fields: Vec<FieldMeta>,
    /// Hint shown in help output.
    pub hint: Option<String>,
    /// Subcommands.
    pub subcommands: Vec<BuiltinSubcommand>,
}

/// A subcommand of a built-in command.
#[derive(Debug)]
pub struct BuiltinSubcommand {
    /// Name.
    pub name: String,
    /// Human-readable description.
    pub description: String,
    /// Named options.
    pub options_fields: Vec<FieldMeta>,
    /// Option names and their aliases.
    pub option_aliases: Vec<(String, char)>,
    /// Other names.
    pub aliases: Vec<String>,
}

/// What a [`BuiltinCommand`] means.
pub struct Builtin {
    /// Name.
    pub name: Seq<char>,
    /// Human-readable description.
    pub description: Seq<char>,
    /// Positional arguments.
    pub args: Seq<Field>,
    /// Hint shown in help output.
    pub hint: Option<Seq<char>>,
    /// Subcommands.
    pub subcommands: Seq<Sub>,
}

/// What a [`BuiltinSubcommand`] means.
pub struct Sub {
    /// Name.
    pub name: Seq<char>,
    /// Human-readable description.
    pub description: Seq<char>,
    /// Named options.
    pub options: Seq<Field>,
    /// Option names and their aliases.
    pub option_aliases: Seq<(Seq<char>, char)>,
    /// Other names.
    pub aliases: Seq<Seq<char>>,
}

impl View for BuiltinSubcommand {
    type V = Sub;

    open spec fn view(&self) -> Sub {
        Sub {
            name: self.name@,
            description: self.description@,
            options: fields(self.options_fields@),
            option_aliases: keyed(self.option_aliases@),
            aliases: texts(self.aliases@),
        }
    }
}

/// What subcommands mean.
pub open spec fn subs(v: Seq<BuiltinSubcommand>) -> Seq<Sub> {
    v.map_values(|s: BuiltinSubcommand| s@)
}

impl View for BuiltinCommand {
    type V = Builtin;

    open spec fn view(&self) -> Builtin {
        Builtin {
            name: self.name@,
            description: self.description@,
            args: fields(self.args_fields@),
            hint: opt_text(self.hint),
            subcommands: subs(self.subcommands@),
        }
    }
}

/// What built-in commands mean.
pub open spec fn all_of(v: Seq<BuiltinCommand>) -> Seq<Builtin> {
    v.map_values(|b: BuiltinCommand| b@)
}

/// A field with a name, a type and a description.
pub open spec fn plain_field(
    name: Seq<char>,
    cli_name: Seq<char>,
    description: Seq<char>,
    kind: Kind,
) -> Field {
    Field {
        name,
        cli_name,
        description: Some(description),
        kind,
        required: false,
        default: None,
        alias: None,
        deprecated: false,
        env_name: None,
    }
}

fn make_field(name: &str, cli_name: &str, description: &str, field_type: FieldType) -> (r: FieldMeta)
    ensures
        r@ == plain_field(name@, cli_name@, description@, field_type@),
{
    FieldMeta {
        name: name.to_string(),
        cli_name: cli_name.to_string(),
        description: Some(description.to_string()),
        field_type,
        required: false,
        default: None,
        alias: None,
        deprecated: false,
        env_name: None,
    }
}

/// A text with spaces behind it up to a width.
pub open spec fn padded(s: Seq<char>, width: nat) -> Seq<char> {
    if s.len() < width {
        s + spaces((width - s.len()) as nat)
    } else {
        s
    }
}

fn pad(s: &str, width: usize) -> (r: String)
    ensures
        r@ == padded(s@, width as nat),
{
    let len: usize = crate::text::chars_of(s).len();
    if len < width {
        cat(s, spaces_text(width - len).as_str())
    } else {
        s.to_string()
    }
}

/// The shells with how to set up completions for each: shell, command and
/// where it goes.
pub open spec fn setup_rows(cli: Seq<char>) -> Seq<(Seq<char>, Seq<char>, Seq<char>)> {
    seq![
        ("bash"@, "eval \"$("@ + cli + " completions bash)\""@, "# add to ~/.bashrc"@),
        ("fish"@, cli + " completions fish | source"@, "# add to ~/.config/fish/config.fish"@),
        ("nushell"@, "see `"@ + cli + " completions nushell`"@, "# add to config.nu"@),
        ("zsh"@, "eval \"$("@ + cli + " completions zsh)\""@, "# add to ~/.zshrc"@),
    ]
}

/// The greater of two numbers.
pub open spec fn greater(a: usize, b: usize) -> usize {
    if a < b {
        b
    } else {
        a
    }
}

/// The width of the first column: the longest shell name in bytes.
pub open spec fn shell_width(cli: Seq<char>) -> usize {
    greater(
        greater(greater(bytes("bash"@), bytes("fish"@)), bytes("nushell"@)),
        bytes("zsh"@),
    )
}

/// The width of the second column: the longest command in bytes.
pub open spec fn command_width(cli: Seq<char>) -> usize {
    let rows = setup_rows(cli);
    greater(
        greater(greater(bytes(rows[0].1), bytes(rows[1].1)), bytes(rows[2].1)),
        bytes(rows[3].1),
    )
}

/// One row of the setup table.
pub open spec fn setup_line(cli: Seq<char>, row: (Seq<char>, Seq<char>, Seq<char>)) -> Seq<char> {
    "  "@ + padded(row.0, shell_width(cli) as nat) + "  "@ + padded(
        row.1,
        command_width(cli) as nat,
    ) + "  "@ + row.2
}

/// The hint of the completions command.
pub open spec fn setup_hint(cli: Seq<char>) -> Seq<char> {
    "Setup:\n"@ + join(
        setup_rows(cli).map_values(
            |row: (Seq<char>, Seq<char>, Seq<char>)| setup_line(cli, row),
        ),
        "\n"@,
    )
}

fn max_of(a: usize, b: usize) -> (r: usize)
    ensures
        r == greater(a, b),
{
    if a < b {
        b
    } else {
        a
    }
}

fn setup_row(shell: &str, command: &str, comment: &str, first: usize, second: usize) -> (r: String)
    ensures
        r@ == "  "@ + padded(shell@, first as nat) + "  "@ + padded(command@, second as nat)
            + "  "@ + comment@,
{
    let mut out = cat3("  ", pad(shell, first).as_str(), "  ");
    out.append(pad(command, second).as_str());
    out.append("  ");
    out.append(comment);
    out
}

fn setup_hint_text(cli_name: &str) -> (r: String)
    ensures
        r@ == setup_hint(cli_name@),
{
    let bash = cat3("eval \"$(", cli_name, " completions bash)\"");
    let fish = cat(cli_name, " completions fish | source");
    let nushell = cat3("see `", cli_name, " completions nushell`");
    let zsh = cat3("eval \"$(", cli_name, " completions zsh)\"");
    let first: usize = max_of(
        max_of(max_of("bash".len(), "fish".len()), "nushell".len()),
        "zsh".len(),
    );
    let second: usize = max_of(
        max_of(max_of(bash.as_str().len(), fish.as_str().len()), nushell.as_str().len()),
        zsh.as_str().len(),
    );
    let mut rows: Vec<String> = Vec::new();
    rows.push(setup_row("bash", bash.as_str(), "# add to ~/.bashrc", first, second));
    rows.push(
        setup_row("fish", fish.as_str(), "# add to ~/.config/fish/config.fish", first, second),
    );
    rows.push(setup_row("nushell", nushell.as_str(), "# add to config.nu", first, second));
    rows.push(setup_row("zsh", zsh.as_str(), "# add to ~/.zshrc", first, second));
    assert(texts(rows@) =~= setup_rows(cli_name@).map_values(
        |row: (Seq<char>, Seq<char>, Seq<char>)| setup_line(cli_name@, row),
    ));
    cat("Setup:\n", join_texts(&rows, "\n").as_str())
}

/// The `completions` command.
pub open spec fn completions_builtin(cli: Seq<char>) -> Builtin {
    Builtin {
        name: "completions"@,
        description: "Generate shell completion script"@,
        args: seq![
            Field {
                required: true,
                ..plain_field(
                    "shell"@,
                    "shell"@,
                    "Shell to generate completions for"@,
                    Kind::Enum(seq!["bash"@, "fish"@, "nushell"@, "zsh"@]),
                )
            },
        ],
        hint: Some(setup_hint(cli)),
        subcommands: Seq::empty(),
    }
}

fn completions_command(cli_name: &str) -> (r: BuiltinCommand)
    ensures
        r@ == completions_builtin(cli_name@),
{
    let mut shells: Vec<String> = Vec::new();
    shells.push("bash".to_string());
    shells.push("fish".to_string());
    shells.push("nushell".to_string());
    shells.push("zsh".to_string());
    assert(texts(shells@) =~= seq!["bash"@, "fish"@, "nushell"@, "zsh"@]);
    let mut field = make_field(
        "shell",
        "shell",
        "Shell to generate completions for",
        FieldType::Enum(shells),
    );
    field.required = true;
    let mut args_fields: Vec<FieldMeta> = Vec::new();
    args_fields.push(field);
    let subcommands: Vec<BuiltinSubcommand> = Vec::new();
    assert(fields(args_fields@) =~= completions_builtin(cli_name@).args);
    assert(subs(subcommands@) =~= Seq::<Sub>::empty());
    BuiltinCommand {
        name: "completions".to_string(),
        description: "Generate shell completion script".to_string(),
        args_fields,
        hint: Some(setup_hint_text(cli_name)),
        subcommands,
    }
}

/// The option that installs into the project.
pub open spec fn no_global_field() -> Field {
    Field {
        default: Some(Json::Bool(false)),
        ..plain_field(
            "no_global"@,
            "no-global"@,
            "Install to project instead of globally"@,
            Kind::Boolean,
        )
    }
}

fn make_no_global() -> (r: FieldMeta)
    ensures
        r@ == no_global_field(),
{
    let mut field = make_field(
        "no_global",
        "no-global",
        "Install to project instead of globally",
        FieldType::Boolean,
    );
    field.default = Some(Value::Bool(false));
    field
}

/// How the coding agent that is made for a model is called on the command line.
pub open spec fn code_agent_id(model: Seq<char>) -> Seq<char> {
    model + "-code"@
}

/// The `mcp add` command.
pub open spec fn mcp_add() -> Sub {
    Sub {
        name: "add"@,
        description: "Register as MCP server"@,
        options: seq![
            plain_field(
                "agent"@,
                "agent"@,
                "Target a specific agent (e.g. "@ + code_agent_id(tool_slug(CLAUDE_CONFIG_DIR@)) + ", cursor)"@,
                Kind::String,
            ),
            Field {
                alias: Some('c'),
                ..plain_field(
                    "command"@,
                    "command"@,
                    "Override the command agents will run (e.g. \"my-cli --mcp\")"@,
                    Kind::String,
                )
            },
            no_global_field(),
        ],
        option_aliases: seq![("command"@, 'c')],
        aliases: Seq::empty(),
    }
}

fn mcp_add_command() -> (r: BuiltinSubcommand)
    ensures
        r@ == mcp_add(),
{
    let mut command = make_field(
        "command",
        "command",
        "Override the command agents will run (e.g. \"my-cli --mcp\")",
        FieldType::String,
    );
    command.alias = Some('c');
    let mut options_fields: Vec<FieldMeta> = Vec::new();
    options_fields.push(
        make_field(
            "agent",
            "agent",
            cat3(
                "Target a specific agent (e.g. ",
                cat(slug_of(CLAUDE_CONFIG_DIR).as_str(), "-code").as_str(),
                ", cursor)",
            ).as_str(),
            FieldType::String,
        ),
    );
    options_fields.push(command);
    options_fields.push(make_no_global());
    let mut option_aliases: Vec<(String, char)> = Vec::new();
    option_aliases.push(("command".to_string(), 'c'));
    let aliases: Vec<String> = Vec::new();
    assert(fields(options_fields@) =~= mcp_add().options);
    assert(keyed(option_aliases@) =~= mcp_add().option_aliases);
    assert(texts(aliases@) =~= Seq::<Seq<char>>::empty());
    BuiltinSubcommand {
        name: "add".to_string(),
        description: "Register as MCP server".to_string(),
        options_fields,
        option_aliases,
        aliases,
    }
}

/// A subcommand without options.
pub open spec fn bare_sub(name: Seq<char>, description: Seq<char>, aliases: Seq<Seq<char>>) -> Sub {
    Sub {
        name,
        description,
        options: Seq::empty(),
        option_aliases: Seq::empty(),
        aliases,
    }
}

fn bare_subcommand(name: &str, description: &str, aliases: Vec<String>) -> (r: BuiltinSubcommand)
    ensures
        r@ == bare_sub(name@, description@, texts(aliases@)),
{
    let options_fields: Vec<FieldMeta> = Vec::new();
    let option_aliases: Vec<(String, char)> = Vec::new();
    assert(fields(options_fields@) =~= Seq::<Field>::empty());
    assert(keyed(option_aliases@) =~= Seq::<(Seq<char>, char)>::empty());
    BuiltinSubcommand {
        name: name.to_string(),
        description: description.to_string(),
        options_fields,
        option_aliases,
        aliases,
    }
}

/// The `skills add` command.
pub open spec fn skills_add() -> Sub {
    Sub {
        name: "add"@,
        description: "Sync skill files to agents"@,
        options: seq![
            Field {
                default: Some(Json::Number(Number::PosInt(1))),
                ..plain_field(
                    "depth"@,
                    "depth"@,
                    "Grouping depth for skill files (default: 1)"@,
                    Kind::Number,
                )
            },
            no_global_field(),
        ],
        option_aliases: Seq::empty(),
        aliases: Seq::empty(),
    }
}

fn skills_add_command() -> (r: BuiltinSubcommand)
    ensures
        r@ == skills_add(),
{
    let mut depth = make_field(
        "depth",
        "depth",
        "Grouping depth for skill files (default: 1)",
        FieldType::Number,
    );
    depth.default = Some(Value::Number(Number::PosInt(1)));
    let mut sub = bare_subcommand("add", "Sync skill files to agents", Vec::new());
    let mut options_fields: Vec<FieldMeta> = Vec::new();
    options_fields.push(depth);
    options_fields.push(make_no_global());
    assert(fields(options_fields@) =~= skills_add().options);
    sub.options_fields = options_fields;
    assert(sub@.aliases =~= Seq::<Seq<char>>::empty());
    sub
}

/// The `mcp` command.
pub open spec fn mcp_builtin() -> Builtin {
    Builtin {
        name: "mcp"@,
        description: "Register as MCP server"@,
        args: Seq::empty(),
        hint: None,
        subcommands: seq![
            mcp_add(),
            bare_sub(
                "doctor"@,
                "Validate MCP server startup and tool listing"@,
                Seq::empty(),
            ),
        ],
    }
}

/// The `skills` command.
pub open spec fn skills_builtin() -> Builtin {
    Builtin {
        name: "skills"@,
        description: "Sync skill files to agents"@,
        args: Seq::empty(),
        hint: None,
        subcommands: seq![
            skills_add(),
            bare_sub("list"@, "List skills and whether they are installed"@, seq!["ls"@]),
        ],
    }
}

/// The built-in commands.
pub open spec fn builtins(cli: Seq<char>) -> Seq<Builtin> {
    seq![completions_builtin(cli), mcp_builtin(), skills_builtin()]
}

fn grouped(name: &str, description: &str, first: BuiltinSubcommand, second: BuiltinSubcommand) -> (r:
    BuiltinCommand)
    ensures
        r@ == (Builtin {
            name: name@,
            description: description@,
            args: Seq::empty(),
            hint: None,
            subcommands: seq![first@, second@],
        }),
{
    let args_fields: Vec<FieldMeta> = Vec::new();
    let ghost both = seq![first@, second@];
    let mut subcommands: Vec<BuiltinSubcommand> = Vec::new();
    subcommands.push(first);
    subcommands.push(second);
    assert(fields(args_fields@) =~= Seq::<Field>::empty());
    assert(subs(subcommands@) =~= both);
    BuiltinCommand {
        name: name.to_string(),
        description: description.to_string(),
        args_fields,
        hint: None,
        subcommands,
    }
}

/// The commands that every command-line interface has.
pub fn builtin_commands(cli_name: &str) -> (r: Vec<BuiltinCommand>)
    ensures
        all_of(r@) == builtins(cli_name@),
{
    let none: Vec<String> = Vec::new();
    assert(texts(none@) =~= Seq::<Seq<char>>::empty());
    let mut list_aliases: Vec<String> = Vec::new();
    list_aliases.push("ls".to_string());
    assert(texts(list_aliases@) =~= seq!["ls"@]);
    let mcp = grouped(
        "mcp",
        "Register as MCP server",
        mcp_add_command(),
        bare_subcommand("doctor", "Validate MCP server startup and tool listing", none),
    );
    let skills = grouped(
        "skills",
        "Sync skill files to agents",
        skills_add_command(),
        bare_subcommand("list", "List skills and whether they are installed", list_aliases),
    );
    let mut out: Vec<BuiltinCommand> = Vec::new();
    out.push(completions_command(cli_name));
    out.push(mcp);
    out.push(skills);
    assert(all_of(out@) =~= builtins(cli_name@));
    out
}

/// Where the words name a built-in command: at the start, or behind the name
/// of the binary.
pub open spec fn builtin_index(
    tokens: Seq<Seq<char>>,
    cli: Seq<char>,
    builtin: Seq<char>,
) -> Option<usize> {
    if tokens.len() > 0 && tokens[0] == builtin {
        Some(0)
    } else if tokens.len() > 1 && tokens[0] == cli && tokens[1] == builtin {
        Some(1)
    } else {
        None
    }
}

/// Finds where the tokens name a built-in command.
pub fn builtin_command_index(tokens: &Vec<String>, cli_name: &str, builtin_name: &str) -> (r: Option<
    usize,
>)
    ensures
        r == builtin_index(texts(tokens@), cli_name@, builtin_name@),
{
    let ghost all = texts(tokens@);
    if tokens.len() > 0 {
        assert(all[0] == tokens@[0]@);
        if same(tokens[0].as_str(), builtin_name) {
            return Some(0);
        }
        if tokens.len() > 1 {
            assert(all[1] == tokens@[1]@);
            if same(tokens[0].as_str(), cli_name) && same(tokens[1].as_str(), builtin_name) {
                return Some(1);
            }
        }
    }
    None
}

/// A built-in command is named by the first word, or by the second where the first is
/// the name of the command line.
pub proof fn law_builtins_are_named_first(
    tokens: Seq<Seq<char>>,
    cli: Seq<char>,
    builtin: Seq<char>,
)
    ensures
        builtin_index(seq![builtin] + tokens, cli, builtin) == Some(0usize),
        cli != builtin ==> builtin_index(seq![cli, builtin] + tokens, cli, builtin) == Some(1usize),
        tokens.len() > 0 && tokens[0] != builtin && !(tokens[0] == cli && tokens.len() > 1
            && tokens[1] == builtin) ==> builtin_index(tokens, cli, builtin) is None,
        builtin_index(Seq::empty(), cli, builtin) is None,
{
    assert((seq![builtin] + tokens)[0] == builtin);
    assert((seq![cli, builtin] + tokens)[0] == cli);
    assert((seq![cli, builtin] + tokens)[1] == builtin);
}

/// The built-in commands, by name, with their subcommands.
pub proof fn law_builtin_commands_are_known(cli: Seq<char>)
    ensures
        ({
            let all = builtins(cli);
            &&& all.len() == 3
            &&& all[0].name == "completions"@ && all[0].subcommands.len() == 0
            &&& all[0].args.len() == 1 && all[0].args[0].required && all[0].hint is Some
            &&& all[0].args[0].kind == Kind::Enum(seq!["bash"@, "fish"@, "nushell"@, "zsh"@])
            &&& all[1].name == "mcp"@ && all[1].subcommands.len() == 2
            &&& all[1].subcommands[0].name == "add"@ && all[1].subcommands[1].name == "doctor"@
            &&& all[1].subcommands[0].options.len() == 3
            &&& all[1].subcommands[0].options[0].cli_name == "agent"@
            &&& all[1].subcommands[0].options[1].cli_name == "command"@
            &&& all[1].subcommands[0].options[1].alias == Some('c')
            &&& all[1].subcommands[0].option_aliases == seq![("command"@, 'c')]
            &&& all[1].subcommands[0].options[2].cli_name == "no-global"@
            &&& all[2].name == "skills"@ && all[2].subcommands.len() == 2
            &&& all[2].subcommands[0].name == "add"@ && all[2].subcommands[1].name == "list"@
            &&& all[2].subcommands[1].aliases == seq!["ls"@]
            &&& all[2].subcommands[0].options.len() == 2
            &&& all[2].subcommands[0].options[0].cli_name == "depth"@
            &&& all[2].subcommands[0].options[0].kind is Number
            &&& all[2].subcommands[0].options[0].default == Some(Json::Number(Number::PosInt(1)))
            &&& all[2].subcommands[0].options[1].cli_name == "no-global"@
            &&& all[2].subcommands[0].options[1].kind is Boolean
        }),
{
}

/// A text is filled up with spaces to the width, and is not cut where it is longer.
pub proof fn law_texts_are_padded(s: Seq<char>, width: nat)
    ensures
        s.is_prefix_of(padded(s, width)),
        s.len() >= width ==> padded(s, width) == s,
        s.len() < width ==> padded(s, width).len() == width,
        forall|i: int|
            s.len() <= i < padded(s, width).len() ==> #[trigger] padded(s, width)[i] == ' ',
{
    let out = padded(s, width);
    assert(out.subrange(0, s.len() as int) =~= s);
}

} // verus!
