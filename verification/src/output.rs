//! Output formats, policies and follow-up suggestions.

use vstd::prelude::*;
use crate::text::{opt_text, same};

verus! {

/// Output format.
#[derive(Debug, Clone, Copy, PartialEq, Eq, Structural)]
pub enum Format {
    /// Token-oriented object notation.
    Toon,
    /// JSON.
    Json,
    /// YAML.
    Yaml,
    /// Markdown.
    Markdown,
    /// One JSON value per line.
    Jsonl,
}

/// The format that a name stands for.
#[verifier::opaque]
pub open spec fn format_named(s: Seq<char>) -> Option<Format> {
    if s == "toon"@ {
        Some(Format::Toon)
    } else if s == "json"@ {
        Some(Format::Json)
    } else if s == "yaml"@ {
        Some(Format::Yaml)
    } else if s == "md"@ {
        Some(Format::Markdown)
    } else if s == "jsonl"@ {
        Some(Format::Jsonl)
    } else {
        None
    }
}

impl Format {
    /// Parses a format name.
    pub fn from_str_opt(s: &str) -> (r: Option<Format>)
        ensures
            r == format_named(s@),
    {
        reveal(format_named);
        if same(s, "toon") {
            Some(Format::Toon)
        } else if same(s, "json") {
            Some(Format::Json)
        } else if same(s, "yaml") {
            Some(Format::Yaml)
        } else if same(s, "md") {
            Some(Format::Markdown)
        } else if same(s, "jsonl") {
            Some(Format::Jsonl)
        } else {
            None
        }
    }
}

/// Who sees a command's output.
#[derive(Debug, Clone, Copy, PartialEq, Eq, Structural)]
pub enum OutputPolicy {
    /// Every consumer.
    All,
    /// Consumers other than a human at a terminal.
    AgentOnly,
}

/// One suggested follow-up command.
#[derive(Debug, Clone)]
pub enum CtaEntry {
    /// A command without the binary name.
    Simple(String),
    /// A command with an optional description.
    Detailed {
        /// The command, with or without the binary name.
        command: String,
        /// What the command is for.
        description: Option<String>,
    },
}

/// Suggested follow-up commands.
#[derive(Debug, Clone)]
pub struct CtaBlock {
    /// The suggestions.
    pub commands: Vec<CtaEntry>,
    /// Text above the suggestions.
    pub description: Option<String>,
}

/// A validation failure of one field.
#[derive(Debug, Clone)]
pub struct FieldErrorOutput {
    /// Path of the field.
    pub path: String,
    /// What was expected.
    pub expected: String,
    /// What was given.
    pub received: String,
    /// Human-readable message.
    pub message: String,
}

/// What a [`FieldErrorOutput`] means.
pub struct FieldFailure {
    /// Path of the field.
    pub path: Seq<char>,
    /// What was expected.
    pub expected: Seq<char>,
    /// What was given.
    pub received: Seq<char>,
    /// Human-readable message.
    pub message: Seq<char>,
}

impl View for FieldErrorOutput {
    type V = FieldFailure;

    open spec fn view(&self) -> FieldFailure {
        FieldFailure {
            path: self.path@,
            expected: self.expected@,
            received: self.received@,
            message: self.message@,
        }
    }
}

/// A suggestion: the command and its description.
pub enum Suggestion {
    /// A command without the binary name.
    Simple(Seq<char>),
    /// A command with an optional description.
    Detailed(Seq<char>, Option<Seq<char>>),
}

impl View for CtaEntry {
    type V = Suggestion;

    open spec fn view(&self) -> Suggestion {
        match *self {
            CtaEntry::Simple(command) => Suggestion::Simple(command@),
            CtaEntry::Detailed { command, description } => Suggestion::Detailed(
                command@,
                opt_text(description),
            ),
        }
    }
}

/// The names of the formats differ.
proof fn lemma_format_names()
    ensures
        "toon"@ != "json"@,
        "toon"@ != "yaml"@,
        "toon"@ != "md"@,
        "toon"@ != "jsonl"@,
        "json"@ != "yaml"@,
        "json"@ != "md"@,
        "json"@ != "jsonl"@,
        "yaml"@ != "md"@,
        "yaml"@ != "jsonl"@,
        "md"@ != "jsonl"@,
{
    reveal_strlit("toon");
    reveal_strlit("json");
    reveal_strlit("yaml");
    reveal_strlit("md");
    reveal_strlit("jsonl");
    assert("toon"@.len() == 4);
    assert("json"@.len() == 4);
    assert("yaml"@.len() == 4);
    assert("md"@.len() == 2);
    assert("jsonl"@.len() == 5);
    assert("json"@[0] == 'j');
    assert("toon"@[0] == 't');
    assert("yaml"@[0] == 'y');
}

/// Each format has its name, and nothing else names one.
pub proof fn law_formats_have_names(s: Seq<char>)
    ensures
        format_named("toon"@) == Some(Format::Toon),
        format_named("json"@) == Some(Format::Json),
        format_named("yaml"@) == Some(Format::Yaml),
        format_named("md"@) == Some(Format::Markdown),
        format_named("jsonl"@) == Some(Format::Jsonl),
        format_named(s) is Some ==> s == "toon"@ || s == "json"@ || s == "yaml"@ || s == "md"@
            || s == "jsonl"@,
{
    reveal(format_named);
    lemma_format_names();
}

} // verus!
