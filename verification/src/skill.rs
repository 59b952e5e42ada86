//! What a skill file says of a command.

use vstd::prelude::*;
use crate::command::{examples_of, Example};
use crate::schema::{fields, Field, FieldMeta};
use crate::text::opt_text;
use crate::value::{opt_value, Json, Value};

verus! {

/// A command as skill files describe it.
#[derive(Debug)]
pub struct CommandInfo {
    /// Names on the way to the command, with spaces between them; empty for the
    /// command line itself.
    pub name: String,
    /// Description.
    pub description: Option<String>,
    /// Positional arguments.
    pub args_fields: Vec<FieldMeta>,
    /// Named options.
    pub options_fields: Vec<FieldMeta>,
    /// Environment variables.
    pub env_fields: Vec<FieldMeta>,
    /// Plain-text hint.
    pub hint: Option<String>,
    /// Usage examples.
    pub examples: Vec<Example>,
    /// JSON Schema of the output.
    pub output_schema: Option<Value>,
}

/// What a [`CommandInfo`] means.
pub struct Info {
    /// Names on the way to the command, with spaces between them.
    pub name: Seq<char>,
    /// Description.
    pub description: Option<Seq<char>>,
    /// Positional arguments.
    pub args: Seq<Field>,
    /// Named options.
    pub options: Seq<Field>,
    /// Environment variables.
    pub env: Seq<Field>,
    /// Plain-text hint.
    pub hint: Option<Seq<char>>,
    /// Usage examples.
    pub examples: Seq<(Seq<char>, Option<Seq<char>>)>,
    /// JSON Schema of the output.
    pub output_schema: Option<Json>,
}

impl View for CommandInfo {
    type V = Info;

    open spec fn view(&self) -> Info {
        Info {
            name: self.name@,
            description: opt_text(self.description),
            args: fields(self.args_fields@),
            options: fields(self.options_fields@),
            env: fields(self.env_fields@),
            hint: opt_text(self.hint),
            examples: examples_of(self.examples@),
            output_schema: opt_value(self.output_schema),
        }
    }
}

/// What command descriptions mean.
pub open spec fn infos(v: Seq<CommandInfo>) -> Seq<Info> {
    v.map_values(|c: CommandInfo| c@)
}

} // verus!
