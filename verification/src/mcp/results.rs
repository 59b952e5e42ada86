//! Results of the MCP server's tools.

use vstd::prelude::*;
use crate::cli::cta::{command_under_name, shown_suggestion};
use crate::mcp::pointer::{follow_pointer, pointed};
use crate::mcp::server::{opt_bool, opt_entries, McpResultContent};
use crate::output::{CtaBlock, CtaEntry, FieldErrorOutput, FieldFailure, Suggestion};
use crate::table::stored;
use crate::text::{cat, cat3, chars_of, join, join_texts, opt_text, texts};
use crate::value::{
    entries, field, lemma_array_view, lemma_collected_found, lemma_collected_push,
    lemma_nothing_collected, lemma_object_view, new_object, object, put, string_value, values,
    with_some, Json, Number, Value,
};

verus! {

/// A part of a result's content.
#[derive(Debug)]
pub enum Content {
    /// A text.
    Text(String),
    /// An image.
    Image {
        /// Its data in base64.
        data: String,
        /// Its media type.
        mime_type: String,
    },
}

/// What a part means.
pub enum Part {
    /// A text.
    Text(Seq<char>),
    /// An image: its data and its media type.
    Image(Seq<char>, Seq<char>),
}

impl View for Content {
    type V = Part;

    open spec fn view(&self) -> Part {
        match *self {
            Content::Text(text) => Part::Text(text@),
            Content::Image { data, mime_type } => Part::Image(data@, mime_type@),
        }
    }
}

/// What parts mean.
pub open spec fn parts(v: Seq<Content>) -> Seq<Part> {
    v.map_values(|c: Content| c@)
}

/// The result of a tool call.
#[derive(Debug)]
pub struct ToolReply {
    /// Its content.
    pub content: Vec<Content>,
    /// Its structured content.
    pub structured_content: Option<Value>,
    /// Whether the call failed.
    pub is_error: bool,
    /// Its metadata.
    pub meta: Option<Vec<(String, Value)>>,
}

/// What a result means.
pub struct Reply {
    /// Content.
    pub content: Seq<Part>,
    /// Structured content.
    pub structured_content: Option<Json>,
    /// Whether the call failed.
    pub is_error: bool,
    /// Metadata.
    pub meta: Option<Seq<(Seq<char>, Json)>>,
}

impl View for ToolReply {
    type V = Reply;

    open spec fn view(&self) -> Reply {
        Reply {
            content: parts(self.content@),
            structured_content: crate::value::opt_value(self.structured_content),
            is_error: self.is_error,
            meta: opt_entries(self.meta),
        }
    }
}

// ---------------------------------------------------------------------------
// Suggestions
// ---------------------------------------------------------------------------

/// The text above suggestions.
pub open spec fn cta_heading(block: CtaBlock) -> Seq<char> {
    match block.description {
        Some(text) => text@,
        None => "Suggested commands:"@,
    }
}

/// A suggestion as a value.
pub open spec fn cta_entry_json(name: Seq<char>, entry: Suggestion) -> Json {
    let command = shown_suggestion(name, entry).0;
    match entry {
        Suggestion::Simple(_) => object(
            Seq::empty().push(("command"@, Json::String(command))),
        ),
        Suggestion::Detailed(_, description) => object(
            Seq::empty().push(("command"@, Json::String(command))).push(
                (
                    "description"@,
                    match description {
                        Some(text) => Json::String(text),
                        None => Json::Null,
                    },
                ),
            ),
        ),
    }
}

/// Suggestions as a value.
pub open spec fn cta_json(name: Seq<char>, block: CtaBlock) -> Json {
    object(
        Seq::empty().push(("description"@, Json::String(cta_heading(block)))).push(
            (
                "commands"@,
                Json::Array(block.commands@.map_values(|e: CtaEntry| cta_entry_json(name, e@))),
            ),
        ),
    )
}

/// A suggestion as a line of text.
pub open spec fn cta_line(name: Seq<char>, entry: Suggestion) -> Seq<char> {
    let (command, description) = shown_suggestion(name, entry);
    match description {
        Some(text) => "  "@ + command + "  # "@ + text,
        None => "  "@ + command,
    }
}

/// Suggestions as lines of text.
pub open spec fn cta_text(name: Seq<char>, block: CtaBlock) -> Seq<char> {
    join(
        seq![cta_heading(block)] + block.commands@.map_values(|e: CtaEntry| cta_line(name, e@)),
        "\n"@,
    )
}

fn shown_command(name: &str, entry: &CtaEntry) -> (r: String)
    ensures
        r@ == shown_suggestion(name@, entry@).0,
{
    match entry {
        CtaEntry::Simple(command) => cat3(name, " ", command.as_str()),
        CtaEntry::Detailed { command, .. } => command_under_name(name, command.as_str()),
    }
}

fn cta_entry_value(name: &str, entry: &CtaEntry) -> (r: Value)
    ensures
        r@ == cta_entry_json(name@, entry@),
{
    broadcast use {lemma_collected_push, lemma_object_view};

    let mut out = new_object();
    put(&mut out, "command", Value::String(shown_command(name, entry)));
    if let CtaEntry::Detailed { description, .. } = entry {
        let value = match description {
            Some(text) => string_value(text.as_str()),
            None => Value::Null,
        };
        put(&mut out, "description", value);
    }
    Value::Object(out)
}

fn heading(block: &CtaBlock) -> (r: String)
    ensures
        r@ == cta_heading(*block),
{
    match &block.description {
        Some(text) => text.clone(),
        None => "Suggested commands:".to_string(),
    }
}

/// Makes a value of suggestions.
pub fn formatted_cta(name: &str, block: &CtaBlock) -> (r: Value)
    ensures
        r@ == cta_json(name@, *block),
{
    broadcast use {lemma_collected_push, lemma_object_view, lemma_array_view};

    let ghost want = block.commands@.map_values(|e: CtaEntry| cta_entry_json(name@, e@));
    let mut commands: Vec<Value> = Vec::new();
    let mut i: usize = 0;
    assert(values(commands@) =~= want.take(0));
    while i < block.commands.len()
        invariant
            i <= block.commands@.len(),
            want == block.commands@.map_values(|e: CtaEntry| cta_entry_json(name@, e@)),
            values(commands@) == want.take(i as int),
        decreases block.commands.len() - i,
    {
        let ghost was = values(commands@);
        commands.push(cta_entry_value(name, &block.commands[i]));
        assert(values(commands@) =~= was.push(want[i as int]));
        assert(want.take(i + 1) =~= want.take(i as int).push(want[i as int]));
        i += 1;
    }
    assert(want.take(want.len() as int) =~= want);
    let mut out = new_object();
    put(&mut out, "description", Value::String(heading(block)));
    put(&mut out, "commands", Value::Array(commands));
    Value::Object(out)
}

fn line_of(name: &str, entry: &CtaEntry) -> (r: String)
    ensures
        r@ == cta_line(name@, entry@),
{
    let mut line = cat("  ", shown_command(name, entry).as_str());
    if let CtaEntry::Detailed { description: Some(text), .. } = entry {
        line.append("  # ");
        line.append(text.as_str());
    }
    line
}

/// Makes lines of text of suggestions.
pub fn render_cta(name: &str, block: &CtaBlock) -> (r: String)
    ensures
        r@ == cta_text(name@, *block),
{
    let ghost rest = block.commands@.map_values(|e: CtaEntry| cta_line(name@, e@));
    let ghost want = seq![cta_heading(*block)] + rest;
    let mut lines: Vec<String> = Vec::new();
    lines.push(heading(block));
    let mut i: usize = 0;
    assert(texts(lines@) =~= want.take(1));
    while i < block.commands.len()
        invariant
            i <= block.commands@.len(),
            rest == block.commands@.map_values(|e: CtaEntry| cta_line(name@, e@)),
            want == seq![cta_heading(*block)] + rest,
            texts(lines@) == want.take(i + 1),
        decreases block.commands.len() - i,
    {
        let ghost was = texts(lines@);
        lines.push(line_of(name, &block.commands[i]));
        assert(want[i + 1] == rest[i as int]);
        assert(texts(lines@) =~= was.push(want[i + 1]));
        assert(want.take(i + 2) =~= want.take(i + 1).push(want[i + 1]));
        i += 1;
    }
    assert(want.take(want.len() as int) =~= want);
    join_texts(&lines, "\n")
}

// ---------------------------------------------------------------------------
// Success
// ---------------------------------------------------------------------------

/// The text that a pointer leads to.
pub open spec fn pointed_text(data: Json, pointer: Seq<char>) -> Option<Seq<char>> {
    match pointed(data, pointer) {
        Some(Json::String(text)) => Some(text),
        _ => None,
    }
}

/// The images that a result shows.
pub open spec fn images(data: Json, presentation: Seq<McpResultContent>) -> Seq<Part>
    decreases presentation.len(),
{
    if presentation.len() == 0 {
        Seq::empty()
    } else {
        let before = images(data, presentation.drop_last());
        match presentation.last() {
            McpResultContent::Image { data_pointer, mime_type_pointer } => match (
                pointed_text(data, data_pointer@),
                pointed_text(data, mime_type_pointer@),
            ) {
                (Some(image), Some(kind)) => before.push(Part::Image(image, kind)),
                _ => before,
            },
        }
    }
}

fn find_text_at(data: &Value, pointer: &str) -> (r: Option<String>)
    ensures
        opt_text(r) == pointed_text(data@, pointer@),
{
    match follow_pointer(data, pointer) {
        Some(Value::String(text)) => Some(text.clone()),
        _ => None,
    }
}

fn push_images(content: &mut Vec<Content>, data: &Value, presentation: &Vec<McpResultContent>)
    ensures
        parts(final(content)@) == parts(old(content)@) + images(data@, presentation@),
{
    let ghost start = parts(content@);
    let mut i: usize = 0;
    assert(parts(content@) =~= start + images(data@, presentation@.take(0)));
    while i < presentation.len()
        invariant
            i <= presentation@.len(),
            parts(content@) == start + images(data@, presentation@.take(i as int)),
        decreases presentation.len() - i,
    {
        let ghost was = parts(content@);
        assert(presentation@.take(i + 1).drop_last() =~= presentation@.take(i as int));
        assert(presentation@.take(i + 1).last() == presentation@[i as int]);
        match &presentation[i] {
            McpResultContent::Image { data_pointer, mime_type_pointer } => {
                if let Some(image) = find_text_at(data, data_pointer.as_str()) {
                    if let Some(kind) = find_text_at(data, mime_type_pointer.as_str()) {
                        let part = Content::Image { data: image, mime_type: kind };
                        let ghost model = part@;
                        content.push(part);
                        assert(parts(content@) =~= was.push(model));
                    }
                }
            },
        }
        assert(parts(content@) =~= start + images(data@, presentation@.take(i + 1)));
        i += 1;
    }
    assert(presentation@.take(presentation@.len() as int) =~= presentation@);
}

/// Metadata with suggestions in it.
pub open spec fn with_cta(
    name: Seq<char>,
    meta: Option<Seq<(Seq<char>, Json)>>,
    cta: Option<CtaBlock>,
) -> Option<Seq<(Seq<char>, Json)>> {
    match cta {
        None => meta,
        Some(block) => Some(
            stored(
                match meta {
                    Some(all) => all,
                    None => Seq::empty(),
                },
                "cta"@,
                cta_json(name, block),
            ),
        ),
    }
}

fn add_cta(name: &str, meta: Option<Vec<(String, Value)>>, cta: &Option<CtaBlock>) -> (r: Option<
    Vec<(String, Value)>,
>)
    ensures
        opt_entries(r) == with_cta(name@, opt_entries(meta), *cta),
{
    match cta {
        None => meta,
        Some(block) => {
            let mut all = match meta {
                Some(all) => all,
                None => {
                    let none: Vec<(String, Value)> = Vec::new();
                    assert(entries(none@) =~= Seq::empty());
                    none
                },
            };
            put(&mut all, "cta", formatted_cta(name, block));
            Some(all)
        },
    }
}

/// How the structured content of a result is represented.
#[derive(Debug)]
pub struct Projection {
    /// The structured content, or the text of the error.
    pub content: Result<Value, String>,
    /// Metadata on the representation.
    pub meta: Option<Vec<(String, Value)>>,
}

/// A failed result that is only a text.
pub open spec fn failed_text(text: Seq<char>) -> Reply {
    Reply {
        content: seq![Part::Text(text)],
        structured_content: None,
        is_error: true,
        meta: None,
    }
}

/// The result of a successful call. `text` is the JSON text of the data.
pub open spec fn success_reply(
    name: Seq<char>,
    data: Json,
    text: Seq<char>,
    cta: Option<CtaBlock>,
    projection: Option<Projection>,
    presentation: Seq<McpResultContent>,
) -> Reply {
    let shown = match cta {
        Some(block) => text + "\n\n"@ + cta_text(name, block),
        None => text,
    };
    let content = seq![Part::Text(shown)] + images(data, presentation);
    match projection {
        None => Reply {
            content,
            structured_content: None,
            is_error: false,
            meta: with_cta(name, None, cta),
        },
        Some(p) => match p.content {
            Err(message) => failed_text(message@),
            Ok(value) => Reply {
                content,
                structured_content: Some(value@),
                is_error: false,
                meta: with_cta(name, opt_entries(p.meta), cta),
            },
        },
    }
}

/// Makes the result of a successful call. `text` is the JSON text of the data.
pub fn tool_result_success(
    name: &str,
    data: &Value,
    text: &str,
    cta: &Option<CtaBlock>,
    projection: Option<Projection>,
    presentation: &Vec<McpResultContent>,
) -> (r: ToolReply)
    ensures
        r@ == success_reply(name@, data@, text@, *cta, projection, presentation@),
{
    let shown = match cta {
        Some(block) => cat3(text, "\n\n", render_cta(name, block).as_str()),
        None => text.to_string(),
    };
    let mut content: Vec<Content> = Vec::new();
    let ghost first = shown@;
    content.push(Content::Text(shown));
    assert(parts(content@) =~= seq![Part::Text(first)]);
    push_images(&mut content, data, presentation);
    match projection {
        None => {
            let meta = add_cta(name, None, cta);
            ToolReply { content, structured_content: None, is_error: false, meta }
        },
        Some(p) => match p.content {
            Err(message) => {
                let mut only: Vec<Content> = Vec::new();
                let ghost said = message@;
                only.push(Content::Text(message));
                assert(parts(only@) =~= seq![Part::Text(said)]);
                ToolReply {
                    content: only,
                    structured_content: None,
                    is_error: true,
                    meta: None,
                }
            },
            Ok(value) => {
                let meta = add_cta(name, p.meta, cta);
                ToolReply { content, structured_content: Some(value), is_error: false, meta }
            },
        },
    }
}

// ---------------------------------------------------------------------------
// Failure
// ---------------------------------------------------------------------------

/// A failed call.
#[derive(Debug)]
pub struct ToolFailure {
    /// Machine-readable error code.
    pub code: String,
    /// Human-readable error message.
    pub message: String,
    /// Whether retrying may succeed.
    pub retryable: Option<bool>,
    /// Optional process exit code.
    pub exit_code: Option<i32>,
    /// The failures of single fields.
    pub field_errors: Option<Vec<FieldErrorOutput>>,
    /// Optional follow-up commands.
    pub cta: Option<CtaBlock>,
}

/// An integer as a value.
pub open spec fn integer_json(n: i32) -> Json {
    if n >= 0 {
        Json::Number(Number::PosInt(n as u64))
    } else {
        Json::Number(Number::NegInt(n as i64))
    }
}

fn integer_value(n: i32) -> (r: Value)
    ensures
        r@ == integer_json(n),
{
    if n >= 0 {
        Value::Number(Number::PosInt(n as u64))
    } else {
        Value::Number(Number::NegInt(n as i64))
    }
}

/// The failure of a field as a value.
pub open spec fn field_error_json(e: FieldFailure) -> Json {
    object(
        Seq::empty().push(("path"@, Json::String(e.path))).push(
            ("expected"@, Json::String(e.expected)),
        ).push(("received"@, Json::String(e.received))).push(
            ("message"@, Json::String(e.message)),
        ),
    )
}

/// The failures of fields as a value.
pub open spec fn field_errors_json(v: Seq<FieldErrorOutput>) -> Json {
    Json::Array(v.map_values(|e: FieldErrorOutput| field_error_json(e@)))
}

fn field_error_value(e: &FieldErrorOutput) -> (r: Value)
    ensures
        r@ == field_error_json(e@),
{
    broadcast use {lemma_collected_push, lemma_object_view};

    let mut out = new_object();
    put(&mut out, "path", string_value(e.path.as_str()));
    put(&mut out, "expected", string_value(e.expected.as_str()));
    put(&mut out, "received", string_value(e.received.as_str()));
    put(&mut out, "message", string_value(e.message.as_str()));
    Value::Object(out)
}

fn field_errors_value(v: &Vec<FieldErrorOutput>) -> (r: Value)
    ensures
        r@ == field_errors_json(v@),
{
    broadcast use lemma_array_view;

    let ghost want = v@.map_values(|e: FieldErrorOutput| field_error_json(e@));
    let mut out: Vec<Value> = Vec::new();
    let mut i: usize = 0;
    assert(values(out@) =~= want.take(0));
    while i < v.len()
        invariant
            i <= v@.len(),
            want == v@.map_values(|e: FieldErrorOutput| field_error_json(e@)),
            values(out@) == want.take(i as int),
        decreases v.len() - i,
    {
        let ghost was = values(out@);
        out.push(field_error_value(&v[i]));
        assert(values(out@) =~= was.push(want[i as int]));
        assert(want.take(i + 1) =~= want.take(i as int).push(want[i as int]));
        i += 1;
    }
    assert(want.take(want.len() as int) =~= want);
    Value::Array(out)
}

/// The details of a failed call: those that are present.
pub open spec fn failure_json(failure: ToolFailure) -> Json {
    object(
        with_some(
            with_some(
                with_some(
                    Seq::empty().push(("code"@, Json::String(failure.code@))).push(
                        (
                            "message"@,
                            Json::String(
                                if failure.message@.len() == 0 {
                                    "Command failed"@
                                } else {
                                    failure.message@
                                },
                            ),
                        ),
                    ),
                    "retryable"@,
                    opt_bool(failure.retryable),
                ),
                "exit_code"@,
                match failure.exit_code {
                    Some(n) => Some(integer_json(n)),
                    None => None,
                },
            ),
            "field_errors"@,
            match failure.field_errors {
                Some(all) => Some(field_errors_json(all@)),
                None => None,
            },
        ),
    )
}

/// Makes a value of the details of a failed call.
pub fn failure_value(failure: &ToolFailure) -> (r: Value)
    ensures
        r@ == failure_json(*failure),
{
    broadcast use {lemma_collected_push, lemma_object_view};

    let mut out = new_object();
    put(&mut out, "code", string_value(failure.code.as_str()));
    if chars_of(failure.message.as_str()).len() == 0 {
        put(&mut out, "message", string_value("Command failed"));
    } else {
        put(&mut out, "message", string_value(failure.message.as_str()));
    }
    if let Some(b) = failure.retryable {
        put(&mut out, "retryable", Value::Bool(b));
    }
    if let Some(n) = failure.exit_code {
        put(&mut out, "exit_code", integer_value(n));
    }
    if let Some(all) = &failure.field_errors {
        put(&mut out, "field_errors", field_errors_value(all));
    }
    Value::Object(out)
}

/// The result of a failed call: the JSON text of its details, the suggestions as a
/// text of their own, and the details again where structured content is asked for.
/// `text` is the JSON text of the details.
pub open spec fn failure_reply(
    name: Seq<char>,
    failure: ToolFailure,
    text: Seq<char>,
    structured: bool,
) -> Reply {
    Reply {
        content: match failure.cta {
            Some(block) => seq![Part::Text(text), Part::Text(cta_text(name, block))],
            None => seq![Part::Text(text)],
        },
        structured_content: if structured {
            Some(failure_json(failure))
        } else {
            None
        },
        is_error: true,
        meta: with_cta(name, None, failure.cta),
    }
}

/// Makes the result of a failed call. `text` is the JSON text of its details, which
/// [`failure_value`] gives.
pub fn tool_result_error(name: &str, failure: &ToolFailure, text: &str, structured: bool) -> (r:
    ToolReply)
    ensures
        r@ == failure_reply(name@, *failure, text@, structured),
{
    let mut content: Vec<Content> = Vec::new();
    content.push(Content::Text(text.to_string()));
    if let Some(block) = &failure.cta {
        content.push(Content::Text(render_cta(name, block)));
        assert(parts(content@) =~= seq![
            Part::Text(text@),
            Part::Text(cta_text(name@, *block)),
        ]);
    } else {
        assert(parts(content@) =~= seq![Part::Text(text@)]);
    }
    let structured_content = if structured {
        Some(failure_value(failure))
    } else {
        None
    };
    let meta = add_cta(name, None, &failure.cta);
    ToolReply { content, structured_content, is_error: true, meta }
}

/// What a tool call came to.
#[derive(Debug)]
pub enum ToolCallOutcome {
    /// The call succeeded.
    Success {
        /// The output.
        data: Value,
        /// Optional follow-up commands.
        cta: Option<CtaBlock>,
    },
    /// The call failed.
    Error(ToolFailure),
}

/// The value whose JSON text a result carries: the output of a call that succeeded, and
/// the details of one that failed.
pub open spec fn outcome_json(outcome: ToolCallOutcome) -> Json {
    match outcome {
        ToolCallOutcome::Success { data, .. } => data@,
        ToolCallOutcome::Error(failure) => failure_json(failure),
    }
}

/// Gives the value whose JSON text a result carries.
pub fn outcome_value(outcome: &ToolCallOutcome) -> (r: Value)
    ensures
        r@ == outcome_json(*outcome),
{
    match outcome {
        ToolCallOutcome::Success { data, .. } => data.copy(),
        ToolCallOutcome::Error(failure) => failure_value(failure),
    }
}

/// Makes the result of a call. `text` is the JSON text of [`outcome_value`]; the
/// projection is that of the output, where structured content is asked for.
pub fn tool_call_result(
    name: &str,
    outcome: &ToolCallOutcome,
    text: &str,
    projection: Option<Projection>,
    presentation: &Vec<McpResultContent>,
) -> (r: ToolReply)
    ensures
        r@ == (match *outcome {
            ToolCallOutcome::Success { data, cta } => success_reply(
                name@,
                data@,
                text@,
                cta,
                projection,
                presentation@,
            ),
            ToolCallOutcome::Error(failure) => failure_reply(
                name@,
                failure,
                text@,
                projection is Some,
            ),
        }),
{
    match outcome {
        ToolCallOutcome::Success { data, cta } => tool_result_success(
            name,
            data,
            text,
            cta,
            projection,
            presentation,
        ),
        ToolCallOutcome::Error(failure) => tool_result_error(
            name,
            failure,
            text,
            projection.is_some(),
        ),
    }
}

// ---------------------------------------------------------------------------
// Laws
// ---------------------------------------------------------------------------

/// A failed call is marked as one, and its first text is the JSON text of its details
/// alone, whatever is suggested.
pub proof fn law_failures_stay_readable(
    name: Seq<char>,
    failure: ToolFailure,
    text: Seq<char>,
    structured: bool,
)
    ensures
        failure_reply(name, failure, text, structured).is_error,
        failure_reply(name, failure, text, structured).content[0] == Part::Text(text),
        structured ==> failure_reply(name, failure, text, structured).structured_content == Some(
            failure_json(failure),
        ),
        !structured ==> failure_reply(name, failure, text, structured).structured_content is None,
{
}

/// A successful call keeps its structured output as it was projected.
pub proof fn law_success_keeps_its_shape(
    name: Seq<char>,
    data: Json,
    text: Seq<char>,
    value: Value,
    meta: Option<Vec<(String, Value)>>,
    presentation: Seq<McpResultContent>,
)
    ensures
        ({
            let reply = success_reply(
                name,
                data,
                text,
                None,
                Some(Projection { content: Ok(value), meta }),
                presentation,
            );
            &&& !reply.is_error
            &&& reply.structured_content == Some(value@)
            &&& reply.content[0] == Part::Text(text)
        }),
{
}

/// The keys of a failure differ.
proof fn lemma_failure_keys()
    ensures
        "code"@ != "message"@,
        "code"@ != "retryable"@,
        "code"@ != "exit_code"@,
        "code"@ != "field_errors"@,
        "message"@ != "retryable"@,
        "message"@ != "exit_code"@,
        "message"@ != "field_errors"@,
        "retryable"@ != "exit_code"@,
        "retryable"@ != "field_errors"@,
        "exit_code"@ != "field_errors"@,
{
    reveal_strlit("code");
    reveal_strlit("message");
    reveal_strlit("retryable");
    reveal_strlit("exit_code");
    reveal_strlit("field_errors");
    assert("code"@.len() == 4);
    assert("message"@.len() == 7);
    assert("retryable"@.len() == 9);
    assert("exit_code"@.len() == 9);
    assert("field_errors"@.len() == 12);
    assert("exit_code"@[0] == 'e');
    assert("retryable"@[0] == 'r');
}

/// The keys of a field's failure differ.
proof fn lemma_field_keys()
    ensures
        "path"@ != "expected"@,
        "path"@ != "received"@,
        "path"@ != "message"@,
        "expected"@ != "received"@,
        "expected"@ != "message"@,
        "received"@ != "message"@,
{
    reveal_strlit("path");
    reveal_strlit("expected");
    reveal_strlit("received");
    reveal_strlit("message");
    assert("path"@.len() == 4);
    assert("expected"@.len() == 8);
    assert("received"@.len() == 8);
    assert("message"@.len() == 7);
    assert("expected"@[0] == 'e');
    assert("received"@[0] == 'r');
}

/// The keys of suggestions differ.
proof fn lemma_cta_keys()
    ensures
        "description"@ != "commands"@,
        "description"@ != "command"@,
        "commands"@ != "command"@,
{
    reveal_strlit("description");
    reveal_strlit("commands");
    reveal_strlit("command");
    assert("description"@.len() == 11);
    assert("commands"@.len() == 8);
    assert("command"@.len() == 7);
}

/// The details of a failed call hold its code and its message, with words in place of an
/// empty one, and the retry mark, the exit code and the failures of fields exactly where
/// there are any.
pub proof fn law_failures_are_told(failure: ToolFailure)
    ensures
        ({
            let told = failure_json(failure);
            &&& field(told, "code"@) == Some(Json::String(failure.code@))
            &&& field(told, "message"@) == Some(
                Json::String(
                    if failure.message@.len() == 0 {
                        "Command failed"@
                    } else {
                        failure.message@
                    },
                ),
            )
            &&& field(told, "retryable"@) == (match failure.retryable {
                Some(b) => Some(Json::Bool(b)),
                None => None,
            })
            &&& field(told, "exit_code"@) == (match failure.exit_code {
                Some(n) => Some(
                    Json::Number(
                        if n >= 0 {
                            Number::PosInt(n as u64)
                        } else {
                            Number::NegInt(n as i64)
                        },
                    ),
                ),
                None => None,
            })
            &&& failure.field_errors is None ==> field(told, "field_errors"@) is None
            &&& failure.field_errors matches Some(all) ==> {
                &&& field(told, "field_errors"@) is Some
                &&& field(told, "field_errors"@)->0 is Array
                &&& field(told, "field_errors"@)->0->Array_0.len() == all@.len()
                &&& forall|i: int|
                    0 <= i < all@.len() ==> {
                        let one = #[trigger] field(told, "field_errors"@)->0->Array_0[i];
                        &&& field(one, "path"@) == Some(Json::String(all@[i].path@))
                        &&& field(one, "expected"@) == Some(Json::String(all@[i].expected@))
                        &&& field(one, "received"@) == Some(Json::String(all@[i].received@))
                        &&& field(one, "message"@) == Some(Json::String(all@[i].message@))
                    }
            }
        }),
{
    broadcast use {lemma_collected_found, lemma_nothing_collected};

    lemma_failure_keys();
    lemma_field_keys();
}

/// A successful call is no error: its first text begins with the JSON text of the data,
/// and is that text where nothing is suggested. Without a projection there is no
/// structured content; one that cannot be made turns the result into a failure.
pub proof fn law_success_shows_the_data(
    name: Seq<char>,
    data: Json,
    text: Seq<char>,
    cta: Option<CtaBlock>,
    projection: Option<Projection>,
    presentation: Seq<McpResultContent>,
)
    ensures
        ({
            let reply = success_reply(name, data, text, cta, projection, presentation);
            let refused = projection is Some && projection->0.content is Err;
            &&& reply.is_error <==> refused
            &&& !refused ==> {
                &&& reply.content[0] matches Part::Text(shown)
                &&& text.is_prefix_of(shown)
                &&& cta is None ==> shown == text
                &&& cta matches Some(block) ==> shown == text + "\n\n"@ + cta_text(name, block)
                &&& reply.content.len() == 1 + images(data, presentation).len()
                &&& forall|i: int|
                    0 <= i < images(data, presentation).len() ==> #[trigger] images(
                        data,
                        presentation,
                    )[i] == reply.content[i + 1]
                &&& reply.structured_content is Some <==> projection is Some
                &&& projection is Some ==> reply.structured_content == Some(
                    projection->0.content->Ok_0@,
                )
            }
            &&& refused ==> {
                &&& reply.content == seq![Part::Text(projection->0.content->Err_0@)]
                &&& reply.structured_content is None
            }
        }),
{
    let reply = success_reply(name, data, text, cta, projection, presentation);
    if !(projection is Some && projection->0.content is Err) {
        let shown = reply.content[0]->Text_0;
        assert(shown.subrange(0, text.len() as int) =~= text);
    }
}

/// Suggestions stand in the metadata of a result under `cta`, and the rest of the
/// metadata is as it was.
pub proof fn law_suggestions_stand_in_metadata(
    name: Seq<char>,
    meta: Option<Seq<(Seq<char>, Json)>>,
    cta: Option<CtaBlock>,
    key: Seq<char>,
)
    ensures
        cta is None ==> with_cta(name, meta, cta) == meta,
        cta matches Some(block) ==> {
            &&& with_cta(name, meta, cta) is Some
            &&& crate::table::lookup(with_cta(name, meta, cta)->0, "cta"@) == Some(
                cta_json(name, block),
            )
            &&& key != "cta"@ ==> crate::table::lookup(with_cta(name, meta, cta)->0, key) == (
            match meta {
                Some(all) => crate::table::lookup(all, key),
                None => None,
            })
        },
{
    if let Some(block) = cta {
        let all = match meta {
            Some(all) => all,
            None => Seq::empty(),
        };
        let none = Seq::<(Seq<char>, Json)>::empty();
        crate::table::lemma_position_from(crate::table::keys(none), key, 0);
        crate::table::lemma_lookup_stored(all, "cta"@, cta_json(name, block), key);
        crate::table::lemma_lookup_stored(all, "cta"@, cta_json(name, block), "cta"@);
    }
}

/// Every suggestion is told, in its turn, as the command that is to be typed.
pub proof fn law_suggestions_are_told(name: Seq<char>, block: CtaBlock, i: int)
    requires
        0 <= i < block.commands@.len(),
    ensures
        ({
            let told = cta_json(name, block);
            &&& field(told, "description"@) == Some(
                Json::String(
                    match block.description {
                        Some(text) => text@,
                        None => "Suggested commands:"@,
                    },
                ),
            )
            &&& field(told, "commands"@) matches Some(Json::Array(commands))
            &&& commands.len() == block.commands@.len()
            &&& block.commands@[i] matches CtaEntry::Simple(command) ==> field(
                commands[i],
                "command"@,
            ) == Some(Json::String(name + " "@ + command@))
            &&& block.commands@[i] matches CtaEntry::Detailed { command, description } ==> {
                &&& command@ != name && !(name + " "@).is_prefix_of(command@) ==> field(
                    commands[i],
                    "command"@,
                ) == Some(Json::String(name + " "@ + command@))
                &&& command@ == name || (name + " "@).is_prefix_of(command@) ==> field(
                    commands[i],
                    "command"@,
                ) == Some(Json::String(command@))
                &&& field(commands[i], "description"@) == Some(
                    match description {
                        Some(text) => Json::String(text@),
                        None => Json::Null,
                    },
                )
            }
        }),
{
    broadcast use {lemma_collected_found, lemma_nothing_collected};

    lemma_cta_keys();
}

/// Images are looked for one by one: of two lists those of the first come first, and one
/// description gives an image exactly where both of its pointers lead to a text.
pub proof fn law_images_are_shown(
    data: Json,
    a: Seq<McpResultContent>,
    b: Seq<McpResultContent>,
    one: McpResultContent,
)
    ensures
        images(data, a + b) == images(data, a) + images(data, b),
        one matches McpResultContent::Image { data_pointer, mime_type_pointer } ==> (match (
            pointed(data, data_pointer@),
            pointed(data, mime_type_pointer@),
        ) {
            (Some(Json::String(image)), Some(Json::String(kind))) => images(data, seq![one])
                == seq![Part::Image(image, kind)],
            _ => images(data, seq![one]).len() == 0,
        }),
    decreases b.len(),
{
    reveal_with_fuel(images, 2);
    assert(seq![one].drop_last() =~= Seq::empty());
    assert(images(data, seq![one].drop_last()) =~= Seq::empty());
    if images(data, seq![one]).len() > 0 {
        assert(images(data, seq![one]) =~= seq![images(data, seq![one])[0]]);
    }
    if b.len() == 0 {
        assert(a + b =~= a);
        assert(images(data, a) + images(data, b) =~= images(data, a));
    } else {
        law_images_are_shown(data, a, b.drop_last(), one);
        assert((a + b).drop_last() =~= a + b.drop_last());
        assert((a + b).last() == b.last());
        assert(images(data, a + b) =~= images(data, a) + images(data, b));
    }
}

/// An integer is shown as the number that it is.
pub proof fn law_integers_are_numbers(n: i32)
    ensures
        n >= 0 ==> (integer_json(n) matches Json::Number(Number::PosInt(m)) && m == n),
        n < 0 ==> (integer_json(n) matches Json::Number(Number::NegInt(m)) && m == n),
{
}

/// A failure that is only a text is an error that shows it.
pub proof fn law_failed_texts_are_errors(text: Seq<char>)
    ensures
        failed_text(text).is_error,
        failed_text(text).content == seq![Part::Text(text)],
        failed_text(text).structured_content is None,
        failed_text(text).meta is None,
{
}

/// The failure of a field is told with its path, what was expected, what came and why.
pub proof fn law_field_failures_are_told(e: FieldFailure)
    ensures
        field(field_error_json(e), "path"@) == Some(Json::String(e.path)),
        field(field_error_json(e), "expected"@) == Some(Json::String(e.expected)),
        field(field_error_json(e), "received"@) == Some(Json::String(e.received)),
        field(field_error_json(e), "message"@) == Some(Json::String(e.message)),
{
    broadcast use {lemma_collected_found, lemma_nothing_collected};

    lemma_field_failure_keys();
}

/// The keys of the failure of a field differ.
proof fn lemma_field_failure_keys()
    ensures
        "path"@ != "expected"@,
        "path"@ != "received"@,
        "path"@ != "message"@,
        "expected"@ != "received"@,
        "expected"@ != "message"@,
        "received"@ != "message"@,
{
    reveal_strlit("path");
    reveal_strlit("expected");
    reveal_strlit("received");
    reveal_strlit("message");
    assert("path"@.len() == 4);
    assert("expected"@.len() == 8);
    assert("received"@.len() == 8);
    assert("message"@.len() == 7);
    assert("expected"@[0] == 'e');
    assert("received"@[0] == 'r');
}

/// A line of suggestions shows the command, and its description behind it where there is
/// one.
pub proof fn law_suggestion_lines_show_the_command(name: Seq<char>, entry: Suggestion)
    ensures
        ({
            let (command, description) = shown_suggestion(name, entry);
            &&& ("  "@ + command).is_prefix_of(cta_line(name, entry))
            &&& description is None ==> cta_line(name, entry) == "  "@ + command
            &&& description matches Some(text) ==> ("  # "@ + text).is_suffix_of(
                cta_line(name, entry),
            )
        }),
{
    let (command, description) = shown_suggestion(name, entry);
    let line = cta_line(name, entry);
    let lead = "  "@ + command;
    assert(line.subrange(0, lead.len() as int) =~= lead);
    if let Some(text) = description {
        let tail = "  # "@ + text;
        assert(line.subrange(line.len() - tail.len(), line.len() as int) =~= tail);
    }
}

} // verus!
