//! What a help page shows.

use vstd::prelude::*;
use crate::command::{examples_of, Example};
use crate::schema::{fields, Field, FieldMeta};
use crate::table::keyed;
use crate::text::{opt_text, texts};

verus! {

/// A line of the command list on a help page.
#[derive(Debug, Clone)]
pub struct CommandSummary {
    /// Name of the command or group.
    pub name: String,
    /// Its description.
    pub description: Option<String>,
}

/// What summaries mean: name and description of each.
pub open spec fn summaries(v: Seq<CommandSummary>) -> Seq<(Seq<char>, Option<Seq<char>>)> {
    v.map_values(|c: CommandSummary| (c.name@, opt_text(c.description)))
}

/// What optional lists of texts mean.
pub open spec fn opt_texts(v: Option<Vec<String>>) -> Option<Seq<Seq<char>>> {
    match v {
        Some(x) => Some(texts(x@)),
        None => None,
    }
}

/// Content of the help page of a command line or of a group of commands.
#[derive(Debug)]
pub struct FormatRootOptions {
    /// Other names of the binary.
    pub aliases: Option<Vec<String>>,
    /// Name of the flag that gives a config file.
    pub config_flag: Option<String>,
    /// Commands of the page.
    pub commands: Vec<CommandSummary>,
    /// Description of the command line or group.
    pub description: Option<String>,
    /// Aliases of the global options.
    pub global_aliases: Vec<(String, char)>,
    /// Global options.
    pub globals_fields: Vec<FieldMeta>,
    /// Whether the page is that of the command line itself.
    pub root: bool,
    /// Version.
    pub version: Option<String>,
}

/// What [`FormatRootOptions`] mean.
pub struct RootPage {
    /// Other names of the binary.
    pub aliases: Option<Seq<Seq<char>>>,
    /// Name of the flag that gives a config file.
    pub config_flag: Option<Seq<char>>,
    /// Commands of the page.
    pub commands: Seq<(Seq<char>, Option<Seq<char>>)>,
    /// Description of the command line or group.
    pub description: Option<Seq<char>>,
    /// Aliases of the global options.
    pub global_aliases: Seq<(Seq<char>, char)>,
    /// Global options.
    pub globals: Seq<Field>,
    /// Whether the page is that of the command line itself.
    pub root: bool,
    /// Version.
    pub version: Option<Seq<char>>,
}

impl View for FormatRootOptions {
    type V = RootPage;

    open spec fn view(&self) -> RootPage {
        RootPage {
            aliases: opt_texts(self.aliases),
            config_flag: opt_text(self.config_flag),
            commands: summaries(self.commands@),
            description: opt_text(self.description),
            global_aliases: keyed(self.global_aliases@),
            globals: fields(self.globals_fields@),
            root: self.root,
            version: opt_text(self.version),
        }
    }
}

/// Content of the help page of a command.
#[derive(Debug)]
pub struct FormatCommandOptions {
    /// Other names of the command.
    pub aliases: Option<Vec<String>>,
    /// Positional arguments.
    pub args_fields: Vec<FieldMeta>,
    /// Name of the flag that gives a config file.
    pub config_flag: Option<String>,
    /// Subcommands.
    pub commands: Vec<CommandSummary>,
    /// Description.
    pub description: Option<String>,
    /// Environment variables.
    pub env_fields: Vec<FieldMeta>,
    /// Usage examples.
    pub examples: Vec<Example>,
    /// Aliases of the global options.
    pub global_aliases: Vec<(String, char)>,
    /// Global options.
    pub globals_fields: Vec<FieldMeta>,
    /// Plain-text hint.
    pub hint: Option<String>,
    /// Whether the global options are left out.
    pub hide_global_options: bool,
    /// Named options.
    pub options_fields: Vec<FieldMeta>,
    /// Aliases of the options.
    pub option_aliases: Vec<(String, char)>,
    /// Whether the page is that of the command line itself.
    pub root: bool,
    /// Version.
    pub version: Option<String>,
}

/// What [`FormatCommandOptions`] mean.
pub struct CommandPage {
    /// Other names of the command.
    pub aliases: Option<Seq<Seq<char>>>,
    /// Positional arguments.
    pub args: Seq<Field>,
    /// Name of the flag that gives a config file.
    pub config_flag: Option<Seq<char>>,
    /// Subcommands.
    pub commands: Seq<(Seq<char>, Option<Seq<char>>)>,
    /// Description.
    pub description: Option<Seq<char>>,
    /// Environment variables.
    pub env: Seq<Field>,
    /// Usage examples.
    pub examples: Seq<(Seq<char>, Option<Seq<char>>)>,
    /// Aliases of the global options.
    pub global_aliases: Seq<(Seq<char>, char)>,
    /// Global options.
    pub globals: Seq<Field>,
    /// Plain-text hint.
    pub hint: Option<Seq<char>>,
    /// Whether the global options are left out.
    pub hide_global_options: bool,
    /// Named options.
    pub options: Seq<Field>,
    /// Aliases of the options.
    pub option_aliases: Seq<(Seq<char>, char)>,
    /// Whether the page is that of the command line itself.
    pub root: bool,
    /// Version.
    pub version: Option<Seq<char>>,
}

impl View for FormatCommandOptions {
    type V = CommandPage;

    open spec fn view(&self) -> CommandPage {
        CommandPage {
            aliases: opt_texts(self.aliases),
            args: fields(self.args_fields@),
            config_flag: opt_text(self.config_flag),
            commands: summaries(self.commands@),
            description: opt_text(self.description),
            env: fields(self.env_fields@),
            examples: examples_of(self.examples@),
            global_aliases: keyed(self.global_aliases@),
            globals: fields(self.globals_fields@),
            hint: opt_text(self.hint),
            hide_global_options: self.hide_global_options,
            options: fields(self.options_fields@),
            option_aliases: keyed(self.option_aliases@),
            root: self.root,
            version: opt_text(self.version),
        }
    }
}

} // verus!
