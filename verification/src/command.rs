//! Command definitions and the decisions of one command execution.

pub mod execute;
pub mod input;

use vstd::prelude::*;
use crate::cli::builder::{store_aliases, with_field_aliases};
use crate::output::{CtaBlock, Format, OutputPolicy};
use crate::schema::FieldMeta;
use crate::table::keyed;
use crate::text::{copy_opt, opt_text};
use crate::value::Value;

verus! {

/// How to parse input for a command.
///
/// Each transport uses a different parse mode to extract positional arguments
/// and named options from the input it receives.
#[derive(Debug, Clone, Copy, PartialEq, Eq, Structural)]
pub enum ParseMode {
    /// CLI: parse both args and options from argv tokens.
    Argv,
    /// HTTP: args from URL path segments, options from body/query.
    Split,
    /// MCP: all params from JSON, split by schema field names.
    Flat,
}

/// A usage example for a command.
#[derive(Debug, Clone)]
pub struct Example {
    /// The command invocation (without the CLI name prefix).
    pub command: String,
    /// A short description of what this example demonstrates.
    pub description: Option<String>,
}

/// What usage examples mean: command and description of each.
pub open spec fn examples_of(v: Seq<Example>) -> Seq<(Seq<char>, Option<Seq<char>>)> {
    v.map_values(|e: Example| (e.command@, opt_text(e.description)))
}

/// Copies usage examples.
pub fn copy_examples(v: &Vec<Example>) -> (r: Vec<Example>)
    ensures
        examples_of(r@) == examples_of(v@),
{
    let mut out: Vec<Example> = Vec::new();
    let mut i: usize = 0;
    while i < v.len()
        invariant
            i <= v@.len(),
            examples_of(out@) == examples_of(v@).take(i as int),
        decreases v.len() - i,
    {
        let ghost was = examples_of(out@);
        let ghost next = examples_of(v@)[i as int];
        out.push(
            Example { command: v[i].command.clone(), description: copy_opt(&v[i].description) },
        );
        assert(examples_of(out@) =~= was.push(next));
        assert(examples_of(v@).take(i + 1) =~= examples_of(v@).take(i as int).push(next));
        i += 1;
    }
    assert(examples_of(v@).take(v@.len() as int) =~= examples_of(v@));
    out
}

/// Hints describing an MCP tool's behavior to clients.
#[derive(Debug, Clone, Default)]
pub struct McpAnnotations {
    /// A human-readable title for the tool.
    pub title: Option<String>,
    /// Whether the tool does not modify its environment.
    pub read_only_hint: Option<bool>,
    /// Whether the tool may perform destructive updates.
    pub destructive_hint: Option<bool>,
    /// Whether repeated calls have no additional effect.
    pub idempotent_hint: Option<bool>,
    /// Whether the tool may interact with external entities.
    pub open_world_hint: Option<bool>,
}

/// MCP exposure and metadata overrides for a command.
#[derive(Debug, Clone)]
pub struct McpCommandOptions {
    /// Whether this command is exposed through MCP.
    pub enabled: bool,
    /// Override for the exposed MCP tool name.
    pub name: Option<String>,
    /// Override for the exposed MCP tool description.
    pub description: Option<String>,
    /// Tool-specific instructions exposed through MCP metadata.
    pub instructions: Option<String>,
    /// Behavioral annotations exposed to MCP clients.
    pub annotations: Option<McpAnnotations>,
    /// Whether skill output should require user confirmation before execution.
    pub destructive: bool,
}

impl Default for McpCommandOptions {
    fn default() -> (r: Self)
        ensures
            r == default_mcp_options(),
    {
        McpCommandOptions {
            enabled: true,
            name: None,
            description: None,
            instructions: None,
            annotations: None,
            destructive: false,
        }
    }
}

/// A registered command definition (leaf node in the command tree).
///
/// Contains the command's schema metadata and display information (help text,
/// examples). The handler and the middleware are known by numbers, under which
/// the process that runs the command finds them.
#[derive(Debug)]
pub struct CommandDef {
    /// The command name.
    pub name: String,
    /// A short description of what the command does.
    pub description: Option<String>,
    /// Schema for positional arguments.
    pub args_fields: Vec<FieldMeta>,
    /// Schema for named options/flags.
    pub options_fields: Vec<FieldMeta>,
    /// Schema for environment variables.
    pub env_fields: Vec<FieldMeta>,
    /// Table of option names to single-char aliases.
    pub aliases: Vec<(String, char)>,
    /// Alternative names this command can be invoked by.
    pub command_aliases: Vec<String>,
    /// Usage examples displayed in help output.
    pub examples: Vec<Example>,
    /// Plain-text hint displayed after examples in help output.
    pub hint: Option<String>,
    /// Default output format for this command. Overridden by `--format`.
    pub format: Option<Format>,
    /// Output policy controlling who sees this command's output.
    pub output_policy: Option<OutputPolicy>,
    /// Number of the command handler.
    pub handler: usize,
    /// MCP metadata supplied by the command builder, when present.
    pub mcp: Option<McpCommandOptions>,
    /// Numbers of the per-command middleware that runs after root and group
    /// middleware.
    pub middleware: Vec<usize>,
    /// JSON Schema for the command's output type (used by `--schema`).
    pub output_schema: Option<Value>,
}

impl CommandDef {
    /// Creates a new command builder with the given name and handler.
    pub fn build(name: String, handler: usize) -> (r: CommandBuilder)
        ensures
            r.mcp is None,
            r.def.name == name,
            r.def.handler == handler,
            r.def.description is None,
            r.def.args_fields@.len() == 0,
            r.def.options_fields@.len() == 0,
            r.def.env_fields@.len() == 0,
            r.def.aliases@.len() == 0,
            r.def.command_aliases@.len() == 0,
            r.def.examples@.len() == 0,
            r.def.hint is None,
            r.def.format is None,
            r.def.output_policy is None,
            r.def.mcp is None,
            r.def.middleware@.len() == 0,
            r.def.output_schema is None,
    {
        CommandBuilder {
            def: CommandDef {
                name,
                description: None,
                args_fields: Vec::new(),
                options_fields: Vec::new(),
                env_fields: Vec::new(),
                aliases: Vec::new(),
                command_aliases: Vec::new(),
                examples: Vec::new(),
                hint: None,
                format: None,
                output_policy: None,
                handler,
                mcp: None,
                middleware: Vec::new(),
                output_schema: None,
            },
            mcp: None,
        }
    }
}

/// Result returned by a typed command handler.
#[derive(Debug)]
pub enum TypedResult<Output> {
    /// Successful typed output with optional CTA metadata and exit code.
    Success {
        /// Serializable command output.
        data: Output,
        /// Optional follow-up commands.
        cta: Option<CtaBlock>,
        /// Optional process exit code.
        exit_code: Option<i32>,
    },
    /// Structured command failure.
    Error {
        /// Machine-readable error code.
        code: String,
        /// Human-readable error message.
        message: String,
        /// Whether retrying may succeed.
        retryable: bool,
        /// Optional process exit code.
        exit_code: Option<i32>,
        /// Optional follow-up commands.
        cta: Option<CtaBlock>,
    },
}

impl<Output> TypedResult<Output> {
    /// Creates a successful typed result.
    pub fn ok(data: Output) -> (r: Self)
        ensures
            r == (TypedResult::Success { data, cta: None::<CtaBlock>, exit_code: None }),
    {
        TypedResult::Success { data, cta: None, exit_code: None }
    }

    /// Creates a successful typed result that ends the process with the given code, such
    /// as that of a wrapped subprocess.
    pub fn ok_with_exit_code(data: Output, exit_code: i32) -> (r: Self)
        ensures
            r == (TypedResult::Success {
                data,
                cta: None::<CtaBlock>,
                exit_code: Some(exit_code),
            }),
    {
        TypedResult::Success { data, cta: None, exit_code: Some(exit_code) }
    }

    /// Creates a successful typed result with CTA metadata.
    pub fn ok_with_cta(data: Output, cta: CtaBlock) -> (r: Self)
        ensures
            r == (TypedResult::Success { data, cta: Some(cta), exit_code: None }),
    {
        TypedResult::Success { data, cta: Some(cta), exit_code: None }
    }

    /// Creates a structured typed error result.
    pub fn error(code: String, message: String) -> (r: Self)
        ensures
            r == (TypedResult::<Output>::Error {
                code,
                message,
                retryable: false,
                exit_code: Some(1i32),
                cta: None,
            }),
    {
        TypedResult::Error { code, message, retryable: false, exit_code: Some(1), cta: None }
    }
}

/// Builder for constructing a [`CommandDef`] ergonomically.
#[derive(Debug)]
pub struct CommandBuilder {
    /// The command so far.
    pub def: CommandDef,
    /// MCP exposure and metadata overrides.
    pub mcp: Option<McpCommandOptions>,
}

impl CommandBuilder {
    /// Sets the command description.
    pub fn description(self, desc: String) -> (r: Self)
        ensures
            r == (CommandBuilder {
                def: CommandDef { description: Some(desc), ..self.def },
                ..self
            }),
    {
        let mut b = self;
        b.def.description = Some(desc);
        b
    }

    /// Sets positional args.
    pub fn args(self, fields: Vec<FieldMeta>) -> (r: Self)
        ensures
            r == (CommandBuilder { def: CommandDef { args_fields: fields, ..self.def }, ..self }),
    {
        let mut b = self;
        b.def.args_fields = fields;
        b
    }

    /// Sets alternative names this command can be invoked by.
    pub fn command_aliases(self, aliases: Vec<String>) -> (r: Self)
        ensures
            r == (CommandBuilder {
                def: CommandDef { command_aliases: aliases, ..self.def },
                ..self
            }),
    {
        let mut b = self;
        b.def.command_aliases = aliases;
        b
    }

    /// Sets named options. Automatically extracts aliases from field metadata.
    pub fn options(self, fields: Vec<FieldMeta>) -> (r: Self)
        ensures
            r == (CommandBuilder {
                def: CommandDef {
                    options_fields: fields,
                    aliases: r.def.aliases,
                    ..self.def
                },
                ..self
            }),
            keyed(r.def.aliases@) == with_field_aliases(keyed(self.def.aliases@), fields@),
    {
        let mut b = self;
        store_aliases(&mut b.def.aliases, &fields);
        b.def.options_fields = fields;
        b
    }

    /// Sets env var bindings.
    pub fn env(self, fields: Vec<FieldMeta>) -> (r: Self)
        ensures
            r == (CommandBuilder { def: CommandDef { env_fields: fields, ..self.def }, ..self }),
    {
        let mut b = self;
        b.def.env_fields = fields;
        b
    }

    /// Adds usage examples.
    pub fn examples(self, examples: Vec<Example>) -> (r: Self)
        ensures
            r == (CommandBuilder { def: CommandDef { examples, ..self.def }, ..self }),
    {
        let mut b = self;
        b.def.examples = examples;
        b
    }

    /// Sets the hint text.
    pub fn hint(self, hint: String) -> (r: Self)
        ensures
            r == (CommandBuilder { def: CommandDef { hint: Some(hint), ..self.def }, ..self }),
    {
        let mut b = self;
        b.def.hint = Some(hint);
        b
    }

    /// Sets the default output format.
    pub fn format(self, format: Format) -> (r: Self)
        ensures
            r == (CommandBuilder { def: CommandDef { format: Some(format), ..self.def }, ..self }),
    {
        let mut b = self;
        b.def.format = Some(format);
        b
    }

    /// Configures MCP exposure and metadata overrides.
    pub fn mcp(self, options: McpCommandOptions) -> (r: Self)
        ensures
            r == (CommandBuilder { mcp: Some(options), ..self }),
    {
        let mut b = self;
        b.mcp = Some(options);
        b
    }

    /// Marks this command as destructive in generated skill guidance.
    pub fn destructive(self, destructive: bool) -> (r: Self)
        ensures
            r == (CommandBuilder {
                mcp: Some(
                    McpCommandOptions {
                        destructive,
                        ..match self.mcp {
                            Some(options) => options,
                            None => default_mcp_options(),
                        }
                    },
                ),
                ..self
            }),
    {
        let mut options = match self.mcp {
            Some(options) => options,
            None => McpCommandOptions::default(),
        };
        options.destructive = destructive;
        CommandBuilder { def: self.def, mcp: Some(options) }
    }

    /// Finishes building and returns the [`CommandDef`].
    pub fn done(self) -> (r: CommandDef)
        ensures
            r == (CommandDef {
                mcp: if self.mcp is Some {
                    self.mcp
                } else {
                    self.def.mcp
                },
                ..self.def
            }),
    {
        let mut def = self.def;
        if let Some(options) = self.mcp {
            def.mcp = Some(options);
        }
        def
    }
}

/// The MCP exposure of a command that sets none.
pub open spec fn default_mcp_options() -> McpCommandOptions {
    McpCommandOptions {
        enabled: true,
        name: None,
        description: None,
        instructions: None,
        annotations: None,
        destructive: false,
    }
}

/// A command that sets nothing for tools is one, under its own name, and destroys nothing.
pub proof fn law_commands_are_tools_by_default()
    ensures
        default_mcp_options().enabled,
        !default_mcp_options().destructive,
        default_mcp_options().name is None,
        default_mcp_options().description is None,
        default_mcp_options().instructions is None,
        default_mcp_options().annotations is None,
{
}

} // verus!
