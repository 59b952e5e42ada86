//! Decisions of the MCP server.

use vstd::prelude::*;
use crate::command::McpAnnotations;
use crate::mcp::filter::{matches_tool_filter, selected, McpDiscovery, McpToolFilter};
use crate::table::stored;
use crate::text::{cat, copy_opt, opt_text, same, texts};
use crate::value::{
    collected, copy_entries, entries, field, lemma_collected_found, lemma_collected_push,
    lemma_nothing_collected, lemma_object_view, natural, new_object, object, opt_string, put,
    string_value, strings, with_some, Json, Number, Value,
};

verus! {

// ---------------------------------------------------------------------------
// Tools
// ---------------------------------------------------------------------------

/// Rich content derived from the structured result of a tool.
#[derive(Debug, Clone)]
pub enum McpResultContent {
    /// An image whose data and media type are found under JSON pointers.
    Image {
        /// Pointer to the data.
        data_pointer: String,
        /// Pointer to the media type.
        mime_type_pointer: String,
    },
}

/// A resolved tool metadata entry.
#[derive(Debug)]
pub struct ResolvedTool {
    /// Tool name (path segments joined with `_`).
    pub name: String,
    /// Human-readable description.
    pub description: String,
    /// Merged JSON Schema for the tool's input, by its entries.
    pub input_schema: Vec<(String, Value)>,
    /// JSON Schema for structured MCP output, by its entries.
    pub output_schema: Option<Vec<(String, Value)>>,
    /// Metadata on how structured output is represented.
    pub output_meta: Option<Vec<(String, Value)>>,
    /// Behavioral annotations exposed to clients.
    pub annotations: Option<McpAnnotations>,
    /// Tool-specific instructions exposed through metadata.
    pub instructions: Option<String>,
    /// Rich content derived from the successful structured result.
    pub result_content: Vec<McpResultContent>,
}

/// What optional entries mean.
pub open spec fn opt_entries(v: Option<Vec<(String, Value)>>) -> Option<Seq<(Seq<char>, Json)>> {
    match v {
        Some(all) => Some(entries(all@)),
        None => None,
    }
}

/// What a catalog says of a tool.
#[derive(Debug)]
pub struct ToolDefinition {
    /// Tool name (path segments joined with `_`).
    pub name: String,
    /// Human-readable description.
    pub description: String,
    /// JSON Schema for the tool's input.
    pub input_schema: Value,
    /// JSON Schema for the tool's output.
    pub output_schema: Option<Value>,
    /// Behavioral annotations.
    pub annotations: Option<McpAnnotations>,
    /// Tool-specific instructions.
    pub instructions: Option<String>,
    /// Rich content derived from the successful structured result.
    pub result_content: Vec<McpResultContent>,
}

/// How the output schema of a tool is represented to MCP clients.
#[derive(Debug)]
pub struct SchemaProjection {
    /// The schema that clients see.
    pub schema: Value,
    /// Metadata on how structured output is represented.
    pub meta: Option<Vec<(String, Value)>>,
}

/// The entries of an object, and nothing of any other value.
pub open spec fn object_entries(v: Json) -> Option<Seq<(Seq<char>, Json)>> {
    match v {
        Json::Object(all) => Some(all),
        _ => None,
    }
}

/// Resolves the definition of a tool. The projection is that of its output schema,
/// where it has one.
pub fn tool_definition(definition: ToolDefinition, projection: Option<SchemaProjection>) -> (r:
    ResolvedTool)
    ensures
        r.name == definition.name,
        r.description == definition.description,
        entries(r.input_schema@) == (match object_entries(definition.input_schema@) {
            Some(all) => all,
            None => Seq::empty(),
        }),
        opt_entries(r.output_schema) == (match projection {
            Some(p) => object_entries(p.schema@),
            None => None,
        }),
        opt_entries(r.output_meta) == (match projection {
            Some(p) => opt_entries(p.meta),
            None => None,
        }),
        r.annotations == definition.annotations,
        r.instructions == definition.instructions,
        r.result_content == definition.result_content,
{
    broadcast use lemma_object_view;

    let none: Vec<(String, Value)> = Vec::new();
    assert(entries(none@) =~= Seq::empty());
    let input_schema = match definition.input_schema {
        Value::Object(all) => all,
        _ => none,
    };
    let (output_schema, output_meta) = match projection {
        Some(p) => {
            let schema = match p.schema {
                Value::Object(all) => Some(all),
                _ => None,
            };
            (schema, p.meta)
        },
        None => (None, None),
    };
    ResolvedTool {
        name: definition.name,
        description: definition.description,
        input_schema,
        output_schema,
        output_meta,
        annotations: definition.annotations,
        instructions: definition.instructions,
        result_content: definition.result_content,
    }
}

/// A hint that may be missing.
pub open spec fn opt_bool(b: Option<bool>) -> Option<Json> {
    match b {
        Some(b) => Some(Json::Bool(b)),
        None => None,
    }
}

/// Annotations as a value: those that are present.
pub open spec fn annotations_json(a: McpAnnotations) -> Json {
    object(
        with_some(
            with_some(
                with_some(
                    with_some(
                        with_some(Seq::empty(), "title"@, opt_string(opt_text(a.title))),
                        "readOnlyHint"@,
                        opt_bool(a.read_only_hint),
                    ),
                    "destructiveHint"@,
                    opt_bool(a.destructive_hint),
                ),
                "idempotentHint"@,
                opt_bool(a.idempotent_hint),
            ),
            "openWorldHint"@,
            opt_bool(a.open_world_hint),
        ),
    )
}

/// A value or `null`.
pub open spec fn or_null(v: Option<Json>) -> Json {
    match v {
        Some(v) => v,
        None => Json::Null,
    }
}

/// Annotations as a value, or `null`.
pub open spec fn hints_json(a: Option<McpAnnotations>) -> Json {
    match a {
        Some(a) => annotations_json(a),
        None => Json::Null,
    }
}

/// Gives annotations as a value, or `null`.
pub fn hints_value(a: &Option<McpAnnotations>) -> (r: Value)
    ensures
        r@ == hints_json(*a),
{
    broadcast use {lemma_collected_push, lemma_object_view};

    match a {
        Some(a) => {
            let mut out = new_object();
            if let Some(title) = &a.title {
                put(&mut out, "title", string_value(title.as_str()));
            }
            if let Some(b) = a.read_only_hint {
                put(&mut out, "readOnlyHint", Value::Bool(b));
            }
            if let Some(b) = a.destructive_hint {
                put(&mut out, "destructiveHint", Value::Bool(b));
            }
            if let Some(b) = a.idempotent_hint {
                put(&mut out, "idempotentHint", Value::Bool(b));
            }
            if let Some(b) = a.open_world_hint {
                put(&mut out, "openWorldHint", Value::Bool(b));
            }
            Value::Object(out)
        },
        None => Value::Null,
    }
}

/// The metadata of a tool: that on its output, with its instructions.
pub open spec fn metadata(
    output: Option<Seq<(Seq<char>, Json)>>,
    instructions: Option<Seq<char>>,
) -> Option<Seq<(Seq<char>, Json)>> {
    match instructions {
        None => output,
        Some(text) => Some(
            stored(
                match output {
                    Some(all) => all,
                    None => Seq::empty(),
                },
                "instructions"@,
                Json::String(text),
            ),
        ),
    }
}

fn copy_opt_entries(v: &Option<Vec<(String, Value)>>) -> (r: Option<Vec<(String, Value)>>)
    ensures
        opt_entries(r) == opt_entries(*v),
{
    match v {
        Some(all) => Some(copy_entries(all)),
        None => None,
    }
}

fn entries_or_none(v: &Option<Vec<(String, Value)>>) -> (r: Vec<(String, Value)>)
    ensures
        entries(r@) == (match opt_entries(*v) {
            Some(all) => all,
            None => Seq::empty(),
        }),
{
    match v {
        Some(all) => copy_entries(all),
        None => {
            let none: Vec<(String, Value)> = Vec::new();
            assert(entries(none@) =~= Seq::empty());
            none
        },
    }
}

/// Gives the metadata of a tool.
pub fn tool_metadata(tool: &ResolvedTool) -> (r: Option<Vec<(String, Value)>>)
    ensures
        opt_entries(r) == metadata(opt_entries(tool.output_meta), opt_text(tool.instructions)),
{
    match &tool.instructions {
        None => copy_opt_entries(&tool.output_meta),
        Some(text) => {
            let mut meta = entries_or_none(&tool.output_meta);
            put(&mut meta, "instructions", string_value(text.as_str()));
            Some(meta)
        },
    }
}

/// Whether a tool is known to change nothing.
pub open spec fn is_read_only(tool: ResolvedTool) -> bool {
    tool.annotations matches Some(a) && a.read_only_hint == Some(true)
}

/// Whether a tool is known to change nothing.
pub fn reads_only(tool: &ResolvedTool) -> (r: bool)
    ensures
        r == is_read_only(*tool),
{
    match &tool.annotations {
        Some(a) => match a.read_only_hint {
            Some(b) => b,
            None => false,
        },
        None => false,
    }
}

/// The tools that a filter lets through, in their order.
pub open spec fn filtered(tools: Seq<ResolvedTool>, filter: McpToolFilter) -> Seq<ResolvedTool>
    decreases tools.len(),
{
    if tools.len() == 0 {
        Seq::empty()
    } else {
        let before = filtered(tools.drop_last(), filter);
        if selected(tools.last().name@, filter) {
            before.push(tools.last())
        } else {
            before
        }
    }
}

/// Keeps the tools that a filter lets through.
pub fn filter_tools(tools: Vec<ResolvedTool>, filter: &McpToolFilter) -> (r: Vec<ResolvedTool>)
    ensures
        r@ == filtered(tools@, *filter),
{
    let ghost all = tools@;
    let mut rest = tools;
    let mut out: Vec<ResolvedTool> = Vec::new();
    let n: usize = rest.len();
    let mut i: usize = 0;
    assert(all.skip(0) =~= all);
    assert(out@ =~= filtered(all.take(0), *filter));
    while i < n
        invariant
            i <= n,
            n == all.len(),
            rest@ == all.skip(i as int),
            out@ == filtered(all.take(i as int), *filter),
        decreases n - i,
    {
        assert(all.take(i + 1).drop_last() =~= all.take(i as int));
        assert(rest@[0] == all[i as int]);
        let tool = rest.remove(0);
        assert(rest@ =~= all.skip(i + 1));
        if matches_tool_filter(tool.name.as_str(), filter) {
            out.push(tool);
        }
        i += 1;
    }
    assert(all.take(all.len() as int) =~= all);
    out
}

/// The position of the first tool of a name, from one of them on.
pub open spec fn tool_from(tools: Seq<ResolvedTool>, name: Seq<char>, from: nat) -> Option<nat>
    decreases tools.len() - from,
{
    if from >= tools.len() {
        None
    } else if tools[from as int].name@ == name {
        Some(from)
    } else {
        tool_from(tools, name, from + 1)
    }
}

/// A position that is found is one of a tool of that name.
pub proof fn lemma_tool_from(tools: Seq<ResolvedTool>, name: Seq<char>, from: nat)
    ensures
        tool_from(tools, name, from) matches Some(i) ==> from <= i < tools.len()
            && tools[i as int].name@ == name,
    decreases tools.len() - from,
{
    if from < tools.len() && tools[from as int].name@ != name {
        lemma_tool_from(tools, name, from + 1);
    }
}

/// Finds the first tool of a name.
pub fn find_tool(tools: &Vec<ResolvedTool>, name: &str) -> (r: Option<usize>)
    ensures
        tool_from(tools@, name@, 0) == (match r {
            Some(i) => Some(i as nat),
            None => None,
        }),
        r matches Some(i) ==> i < tools@.len(),
{
    let mut i: usize = 0;
    while i < tools.len()
        invariant
            i <= tools@.len(),
            tool_from(tools@, name@, i as nat) == tool_from(tools@, name@, 0),
        decreases tools.len() - i,
    {
        if same(tools[i].name.as_str(), name) {
            return Some(i);
        }
        i += 1;
    }
    None
}

/// The first name that an earlier tool has too, from one of them on.
pub open spec fn duplicate(tools: Seq<ResolvedTool>, from: nat) -> Option<Seq<char>>
    decreases tools.len() - from,
{
    if from >= tools.len() {
        None
    } else if tool_from(tools, tools[from as int].name@, 0) != Some(from) {
        Some(tools[from as int].name@)
    } else {
        duplicate(tools, from + 1)
    }
}

fn find_duplicate(tools: &Vec<ResolvedTool>) -> (r: Option<String>)
    ensures
        opt_text(r) == duplicate(tools@, 0),
{
    let mut i: usize = 0;
    while i < tools.len()
        invariant
            i <= tools@.len(),
            duplicate(tools@, i as nat) == duplicate(tools@, 0),
        decreases tools.len() - i,
    {
        let first = match find_tool(tools, tools[i].name.as_str()) {
            Some(k) => k == i,
            None => false,
        };
        if !first {
            return Some(tools[i].name.clone());
        }
        i += 1;
    }
    None
}

// ---------------------------------------------------------------------------
// Listing
// ---------------------------------------------------------------------------

/// A tool as it is listed to clients.
#[derive(Debug)]
pub struct ListedTool {
    /// Tool name.
    pub name: String,
    /// Human-readable description.
    pub description: String,
    /// JSON Schema for the input, by its entries.
    pub input_schema: Vec<(String, Value)>,
    /// JSON Schema for the output, by its entries.
    pub output_schema: Option<Vec<(String, Value)>>,
    /// Behavioral annotations.
    pub annotations: Option<McpAnnotations>,
    /// Metadata.
    pub meta: Option<Vec<(String, Value)>>,
}

/// What annotations mean.
pub struct Hints {
    /// Title.
    pub title: Option<Seq<char>>,
    /// Whether the tool does not modify its environment.
    pub read_only: Option<bool>,
    /// Whether the tool may perform destructive updates.
    pub destructive: Option<bool>,
    /// Whether repeated calls have no additional effect.
    pub idempotent: Option<bool>,
    /// Whether the tool may interact with external entities.
    pub open_world: Option<bool>,
}

/// What annotations mean.
pub open spec fn hints(a: McpAnnotations) -> Hints {
    Hints {
        title: opt_text(a.title),
        read_only: a.read_only_hint,
        destructive: a.destructive_hint,
        idempotent: a.idempotent_hint,
        open_world: a.open_world_hint,
    }
}

/// What a listed tool means.
pub struct Listed {
    /// Tool name.
    pub name: Seq<char>,
    /// Description.
    pub description: Seq<char>,
    /// Schema of the input.
    pub input_schema: Seq<(Seq<char>, Json)>,
    /// Schema of the output.
    pub output_schema: Option<Seq<(Seq<char>, Json)>>,
    /// Annotations.
    pub annotations: Option<Hints>,
    /// Metadata.
    pub meta: Option<Seq<(Seq<char>, Json)>>,
}

/// What optional annotations mean.
pub open spec fn opt_hints(a: Option<McpAnnotations>) -> Option<Hints> {
    match a {
        Some(a) => Some(hints(a)),
        None => None,
    }
}

impl View for ListedTool {
    type V = Listed;

    open spec fn view(&self) -> Listed {
        Listed {
            name: self.name@,
            description: self.description@,
            input_schema: entries(self.input_schema@),
            output_schema: opt_entries(self.output_schema),
            annotations: opt_hints(self.annotations),
            meta: opt_entries(self.meta),
        }
    }
}

/// What listed tools mean.
pub open spec fn listed(v: Seq<ListedTool>) -> Seq<Listed> {
    v.map_values(|t: ListedTool| t@)
}

/// A tool as it is listed where tools are listed directly.
pub open spec fn direct(tool: ResolvedTool) -> Listed {
    Listed {
        name: tool.name@,
        description: tool.description@,
        input_schema: entries(tool.input_schema@),
        output_schema: opt_entries(tool.output_schema),
        annotations: opt_hints(tool.annotations),
        meta: metadata(opt_entries(tool.output_meta), opt_text(tool.instructions)),
    }
}

fn copy_annotations(a: &McpAnnotations) -> (r: McpAnnotations)
    ensures
        hints(r) == hints(*a),
{
    McpAnnotations {
        title: copy_opt(&a.title),
        read_only_hint: a.read_only_hint,
        destructive_hint: a.destructive_hint,
        idempotent_hint: a.idempotent_hint,
        open_world_hint: a.open_world_hint,
    }
}

/// Lists a tool directly.
pub fn direct_tool(tool: &ResolvedTool) -> (r: ListedTool)
    ensures
        r@ == direct(*tool),
{
    let annotations = match &tool.annotations {
        Some(a) => Some(copy_annotations(a)),
        None => None,
    };
    ListedTool {
        name: tool.name.clone(),
        description: tool.description.clone(),
        input_schema: copy_entries(&tool.input_schema),
        output_schema: copy_opt_entries(&tool.output_schema),
        annotations,
        meta: tool_metadata(tool),
    }
}

/// The schema of a value of a type, with or without a default.
pub open spec fn typed(kind: Seq<char>, default: Option<Json>) -> Json {
    object(with_some(Seq::empty().push(("type"@, Json::String(kind))), "default"@, default))
}

fn typed_value(kind: &str, default: Option<Value>) -> (r: Value)
    ensures
        r@ == typed(
            kind@,
            match default {
                Some(v) => Some(v@),
                None => None,
            },
        ),
{
    broadcast use {lemma_collected_push, lemma_object_view};

    let mut out = new_object();
    put(&mut out, "type", string_value(kind));
    if let Some(value) = default {
        put(&mut out, "default", value);
    }
    Value::Object(out)
}

/// The schema of an object.
pub open spec fn object_schema(properties: Json, required: Option<Json>) -> Seq<
    (Seq<char>, Json),
> {
    collected(
        with_some(
            Seq::empty().push(("type"@, Json::String("object"@))).push(
                ("properties"@, properties),
            ),
            "required"@,
            required,
        ),
    )
}

/// The list that holds only `name`.
pub open spec fn only_name() -> Json {
    strings(seq!["name"@])
}

fn object_schema_entries(properties: Value, name_required: bool) -> (r: Vec<(String, Value)>)
    ensures
        entries(r@) == object_schema(
            properties@,
            if name_required {
                Some(only_name())
            } else {
                None
            },
        ),
{
    broadcast use {lemma_collected_push, lemma_object_view};

    let mut out = new_object();
    put(&mut out, "type", string_value("object"));
    put(&mut out, "properties", properties);
    if name_required {
        let mut names: Vec<String> = Vec::new();
        names.push("name".to_string());
        assert(texts(names@) =~= seq!["name"@]);
        put(&mut out, "required", crate::value::strings_value(&names));
    }
    out
}

/// The schema of the input of `search_tools`.
pub open spec fn search_schema() -> Seq<(Seq<char>, Json)> {
    object_schema(
        object(
            Seq::empty().push(("query"@, typed("string"@, Some(Json::String(""@))))).push(
                ("limit"@, typed("number"@, Some(natural(5)))),
            ).push(("offset"@, typed("number"@, Some(natural(0))))),
        ),
        None,
    )
}

/// The schema of the input of `get_tool_details`.
pub open spec fn inspect_schema() -> Seq<(Seq<char>, Json)> {
    object_schema(
        object(Seq::empty().push(("name"@, typed("string"@, None)))),
        Some(only_name()),
    )
}

/// The schema of the input of `call_read_tool` and `call_write_tool`.
pub open spec fn execute_schema() -> Seq<(Seq<char>, Json)> {
    object_schema(
        object(
            Seq::empty().push(("name"@, typed("string"@, None))).push(
                (
                    "arguments"@,
                    object(
                        Seq::empty().push(("type"@, Json::String("object"@))).push(
                            ("additionalProperties"@, Json::Bool(true)),
                        ),
                    ),
                ),
            ),
        ),
        Some(only_name()),
    )
}

fn search_entries() -> (r: Vec<(String, Value)>)
    ensures
        entries(r@) == search_schema(),
{
    broadcast use {lemma_collected_push, lemma_object_view};

    let mut properties = new_object();
    put(&mut properties, "query", typed_value("string", Some(string_value(""))));
    put(
        &mut properties,
        "limit",
        typed_value("number", Some(Value::Number(Number::PosInt(5)))),
    );
    put(
        &mut properties,
        "offset",
        typed_value("number", Some(Value::Number(Number::PosInt(0)))),
    );
    object_schema_entries(Value::Object(properties), false)
}

fn inspect_entries() -> (r: Vec<(String, Value)>)
    ensures
        entries(r@) == inspect_schema(),
{
    broadcast use {lemma_collected_push, lemma_object_view};

    let mut properties = new_object();
    put(&mut properties, "name", typed_value("string", None));
    object_schema_entries(Value::Object(properties), true)
}

fn execute_entries() -> (r: Vec<(String, Value)>)
    ensures
        entries(r@) == execute_schema(),
{
    broadcast use {lemma_collected_push, lemma_object_view};

    let mut arguments = new_object();
    put(&mut arguments, "type", string_value("object"));
    put(&mut arguments, "additionalProperties", Value::Bool(true));
    let mut properties = new_object();
    put(&mut properties, "name", typed_value("string", None));
    put(&mut properties, "arguments", Value::Object(arguments));
    object_schema_entries(Value::Object(properties), true)
}

/// A tool of progressive discovery.
pub open spec fn discovery_tool(
    name: Seq<char>,
    description: Seq<char>,
    schema: Seq<(Seq<char>, Json)>,
    read_only: bool,
    open_world: bool,
) -> Listed {
    Listed {
        name,
        description,
        input_schema: schema,
        output_schema: None,
        annotations: Some(
            Hints {
                title: None,
                read_only: Some(read_only),
                destructive: Some(!read_only),
                idempotent: Some(read_only),
                open_world: Some(open_world),
            },
        ),
        meta: None,
    }
}

/// The tools of progressive discovery.
pub open spec fn discovery_tools() -> Seq<Listed> {
    Seq::empty().push(
        discovery_tool(
            "search_tools"@,
            "Search or page through available tools by capability. Returns names and descriptions without loading their schemas. Inspect a result before calling it."@,
            search_schema(),
            true,
            false,
        ),
    ).push(
        discovery_tool(
            "get_tool_details"@,
            "Inspect one tool returned by search_tools. Returns its complete input schema and metadata."@,
            inspect_schema(),
            true,
            false,
        ),
    ).push(
        discovery_tool(
            "call_read_tool"@,
            "Execute a tool marked read-only after inspecting its schema with get_tool_details."@,
            execute_schema(),
            true,
            true,
        ),
    ).push(
        discovery_tool(
            "call_write_tool"@,
            "Execute a writable or unclassified tool after inspecting its schema with get_tool_details."@,
            execute_schema(),
            false,
            true,
        ),
    )
}

fn push_discovery_tool(
    out: &mut Vec<ListedTool>,
    name: &str,
    description: &str,
    input_schema: Vec<(String, Value)>,
    read_only: bool,
    open_world: bool,
)
    ensures
        listed(final(out)@) == listed(old(out)@).push(
            discovery_tool(name@, description@, entries(input_schema@), read_only, open_world),
        ),
{
    let ghost was = listed(out@);
    let tool = ListedTool {
        name: name.to_string(),
        description: description.to_string(),
        input_schema,
        output_schema: None,
        annotations: Some(
            McpAnnotations {
                title: None,
                read_only_hint: Some(read_only),
                destructive_hint: Some(!read_only),
                idempotent_hint: Some(read_only),
                open_world_hint: Some(open_world),
            },
        ),
        meta: None,
    };
    let ghost model = tool@;
    out.push(tool);
    assert(listed(out@) =~= was.push(model));
}

/// Lists the tools of progressive discovery.
pub fn progressive_tools() -> (r: Vec<ListedTool>)
    ensures
        listed(r@) == discovery_tools(),
{
    let mut out: Vec<ListedTool> = Vec::new();
    assert(listed(out@) =~= Seq::empty());
    push_discovery_tool(
        &mut out,
        "search_tools",
        "Search or page through available tools by capability. Returns names and descriptions without loading their schemas. Inspect a result before calling it.",
        search_entries(),
        true,
        false,
    );
    push_discovery_tool(
        &mut out,
        "get_tool_details",
        "Inspect one tool returned by search_tools. Returns its complete input schema and metadata.",
        inspect_entries(),
        true,
        false,
    );
    push_discovery_tool(
        &mut out,
        "call_read_tool",
        "Execute a tool marked read-only after inspecting its schema with get_tool_details.",
        execute_entries(),
        true,
        true,
    );
    push_discovery_tool(
        &mut out,
        "call_write_tool",
        "Execute a writable or unclassified tool after inspecting its schema with get_tool_details.",
        execute_entries(),
        false,
        true,
    );
    out
}

/// The tools of a server.
pub struct ServedTools {
    /// The tools that can be called.
    pub tools: Vec<ResolvedTool>,
    /// The tools that are listed.
    pub list: Vec<ListedTool>,
}

fn list_directly(tools: &Vec<ResolvedTool>) -> (r: Vec<ListedTool>)
    ensures
        listed(r@) == tools@.map_values(|t: ResolvedTool| direct(t)),
{
    let ghost want = tools@.map_values(|t: ResolvedTool| direct(t));
    let mut out: Vec<ListedTool> = Vec::new();
    let mut i: usize = 0;
    assert(listed(out@) =~= want.take(0));
    while i < tools.len()
        invariant
            i <= tools@.len(),
            want == tools@.map_values(|t: ResolvedTool| direct(t)),
            listed(out@) == want.take(i as int),
        decreases tools.len() - i,
    {
        let ghost was = listed(out@);
        out.push(direct_tool(&tools[i]));
        assert(listed(out@) =~= was.push(want[i as int]));
        assert(want.take(i + 1) =~= want.take(i as int).push(want[i as int]));
        i += 1;
    }
    assert(want.take(want.len() as int) =~= want);
    out
}

/// Decides which tools a server has: those that the filter lets through, listed
/// directly or by progressive discovery. Two of one name are refused.
pub fn serve_tools(resolved: Vec<ResolvedTool>, filter: &McpToolFilter) -> (r: Result<
    ServedTools,
    String,
>)
    ensures
        ({
            let kept = filtered(resolved@, *filter);
            match r {
                Ok(served) => {
                    &&& duplicate(kept, 0) is None
                    &&& served.tools@ == kept
                    &&& listed(served.list@) == (if filter.discovery == McpDiscovery::Direct {
                        kept.map_values(|t: ResolvedTool| direct(t))
                    } else {
                        discovery_tools()
                    })
                },
                Err(message) => duplicate(kept, 0) matches Some(name) && message@
                    == "Duplicate MCP tool name: "@ + name,
            }
        }),
{
    let tools = filter_tools(resolved, filter);
    if let Some(name) = find_duplicate(&tools) {
        return Err(cat("Duplicate MCP tool name: ", name.as_str()));
    }
    let list = if filter.discovery == McpDiscovery::Direct {
        list_directly(&tools)
    } else {
        progressive_tools()
    };
    Ok(ServedTools { tools, list })
}

// ---------------------------------------------------------------------------
// Laws
// ---------------------------------------------------------------------------

/// A filter looks at each tool on its own and keeps their order: of two lists it keeps
/// what it keeps of the first and then what it keeps of the second, and of one tool
/// that tool exactly where its name is selected.
pub proof fn law_filter_keeps_selected_tools(
    a: Seq<ResolvedTool>,
    b: Seq<ResolvedTool>,
    tool: ResolvedTool,
    filter: McpToolFilter,
)
    ensures
        filtered(a + b, filter) == filtered(a, filter) + filtered(b, filter),
        selected(tool.name@, filter) ==> filtered(seq![tool], filter) == seq![tool],
        !selected(tool.name@, filter) ==> filtered(seq![tool], filter).len() == 0,
    decreases b.len(),
{
    reveal_with_fuel(filtered, 2);
    assert(seq![tool].drop_last() =~= Seq::empty());
    assert(filtered(seq![tool].drop_last(), filter) =~= Seq::empty());
    assert(selected(tool.name@, filter) ==> filtered(seq![tool], filter) =~= seq![tool]);
    if b.len() == 0 {
        assert(a + b =~= a);
        assert(filtered(a, filter) + filtered(b, filter) =~= filtered(a, filter));
    } else {
        law_filter_keeps_selected_tools(a, b.drop_last(), tool, filter);
        assert((a + b).drop_last() =~= a + b.drop_last());
        assert((a + b).last() == b.last());
        assert(filtered(a + b, filter) =~= filtered(a, filter) + filtered(b, filter));
    }
}

/// A name leads to the first tool that has it, and nowhere exactly where none has it.
pub proof fn law_names_lead_to_tools(tools: Seq<ResolvedTool>, name: Seq<char>, from: nat)
    ensures
        tool_from(tools, name, from) matches Some(i) ==> from <= i < tools.len()
            && tools[i as int].name@ == name && (forall|j: int|
            from <= j < i ==> (#[trigger] tools[j]).name@ != name),
        tool_from(tools, name, from) is None ==> forall|j: int|
            from <= j < tools.len() ==> (#[trigger] tools[j]).name@ != name,
    decreases tools.len() - from,
{
    if from < tools.len() && tools[from as int].name@ != name {
        law_names_lead_to_tools(tools, name, from + 1);
    }
}

/// Tools are refused exactly where two of them have one name.
pub proof fn law_names_of_tools_differ(tools: Seq<ResolvedTool>, from: nat)
    ensures
        duplicate(tools, from) is None <==> forall|i: int, j: int|
            0 <= i < j < tools.len() && from <= j ==> (#[trigger] tools[i]).name@ != (
            #[trigger] tools[j]).name@,
    decreases tools.len() - from,
{
    if from < tools.len() {
        law_names_of_tools_differ(tools, from + 1);
        law_names_lead_to_tools(tools, tools[from as int].name@, 0);
        if tool_from(tools, tools[from as int].name@, 0) != Some(from) {
            let i = tool_from(tools, tools[from as int].name@, 0)->0;
            assert(tools[i as int].name@ == tools[from as int].name@);
        }
    }
}

/// The keys of annotations differ.
proof fn lemma_hint_keys()
    ensures
        "title"@ != "readOnlyHint"@,
        "title"@ != "destructiveHint"@,
        "title"@ != "idempotentHint"@,
        "title"@ != "openWorldHint"@,
        "readOnlyHint"@ != "destructiveHint"@,
        "readOnlyHint"@ != "idempotentHint"@,
        "readOnlyHint"@ != "openWorldHint"@,
        "destructiveHint"@ != "idempotentHint"@,
        "destructiveHint"@ != "openWorldHint"@,
        "idempotentHint"@ != "openWorldHint"@,
{
    reveal_strlit("title");
    reveal_strlit("readOnlyHint");
    reveal_strlit("destructiveHint");
    reveal_strlit("idempotentHint");
    reveal_strlit("openWorldHint");
    assert("title"@.len() == 5);
    assert("readOnlyHint"@.len() == 12);
    assert("destructiveHint"@.len() == 15);
    assert("idempotentHint"@.len() == 14);
    assert("openWorldHint"@.len() == 13);
}

/// Annotations are shown as they are: each hint under its name, exactly where it is
/// given.
pub proof fn law_hints_are_shown(a: McpAnnotations)
    ensures
        ({
            let shown = hints_json(Some(a));
            let hint = |b: Option<bool>| match b {
                Some(b) => Some(Json::Bool(b)),
                None => None,
            };
            &&& field(shown, "title"@) == (match a.title {
                Some(text) => Some(Json::String(text@)),
                None => None,
            })
            &&& field(shown, "readOnlyHint"@) == hint(a.read_only_hint)
            &&& field(shown, "destructiveHint"@) == hint(a.destructive_hint)
            &&& field(shown, "idempotentHint"@) == hint(a.idempotent_hint)
            &&& field(shown, "openWorldHint"@) == hint(a.open_world_hint)
        }),
        hints_json(None) is Null,
{
    broadcast use {lemma_collected_found, lemma_nothing_collected};

    lemma_hint_keys();
}

/// The metadata of a tool is that on its output, with its instructions added where it
/// has any.
pub proof fn law_instructions_are_added(
    output: Option<Seq<(Seq<char>, Json)>>,
    instructions: Option<Seq<char>>,
    key: Seq<char>,
)
    ensures
        instructions is None ==> metadata(output, instructions) == output,
        instructions matches Some(text) ==> {
            &&& metadata(output, instructions) is Some
            &&& crate::table::lookup(metadata(output, instructions)->0, "instructions"@) == Some(
                Json::String(text),
            )
            &&& key != "instructions"@ ==> crate::table::lookup(
                metadata(output, instructions)->0,
                key,
            ) == (match output {
                Some(all) => crate::table::lookup(all, key),
                None => None,
            })
        },
{
    if let Some(text) = instructions {
        let all = match output {
            Some(all) => all,
            None => Seq::empty(),
        };
        let none = Seq::<(Seq<char>, Json)>::empty();
        crate::table::lemma_position_from(crate::table::keys(none), key, 0);
        crate::table::lemma_lookup_stored(all, "instructions"@, Json::String(text), key);
        crate::table::lemma_lookup_stored(
            all,
            "instructions"@,
            Json::String(text),
            "instructions"@,
        );
    }
}

/// A tool that is listed directly is listed with what is known of it.
pub proof fn law_listed_tools_are_whole(tool: ResolvedTool)
    ensures
        direct(tool).name == tool.name@,
        direct(tool).description == tool.description@,
        direct(tool).input_schema == entries(tool.input_schema@),
        direct(tool).output_schema is Some <==> tool.output_schema is Some,
        tool.output_schema matches Some(all) ==> direct(tool).output_schema == Some(entries(all@)),
        direct(tool).annotations is Some <==> tool.annotations is Some,
        tool.annotations matches Some(a) ==> {
            &&& direct(tool).annotations->0.read_only == a.read_only_hint
            &&& direct(tool).annotations->0.destructive == a.destructive_hint
            &&& direct(tool).annotations->0.idempotent == a.idempotent_hint
            &&& direct(tool).annotations->0.open_world == a.open_world_hint
        },
        direct(tool).meta is Some <==> tool.instructions is Some || tool.output_meta is Some,
{
}

/// A tool counts as one that changes nothing only where it says so.
pub proof fn law_only_marked_tools_are_read_only(tool: ResolvedTool)
    ensures
        is_read_only(tool) <==> tool.annotations is Some && tool.annotations->0.read_only_hint
            == Some(true),
{
}

/// Progressive discovery lists four tools: two that show tools, one that calls those
/// that change nothing, and one that calls the others, which alone is marked as one
/// that may change something.
pub proof fn law_discovery_lists_four_tools(i: int)
    requires
        0 <= i < discovery_tools().len(),
    ensures
        discovery_tools().len() == 4,
        discovery_tools()[0].name == "search_tools"@,
        discovery_tools()[1].name == "get_tool_details"@,
        discovery_tools()[2].name == "call_read_tool"@,
        discovery_tools()[3].name == "call_write_tool"@,
        discovery_tools()[i].annotations matches Some(hints) && hints.read_only == Some(i != 3)
            && hints.destructive == Some(i == 3),
        i > 0 ==> crate::table::lookup(discovery_tools()[i].input_schema, "required"@) == Some(
            Json::Array(seq![Json::String("name"@)]),
        ),
        i == 0 ==> crate::table::lookup(discovery_tools()[i].input_schema, "required"@) is None,
{
    broadcast use {lemma_collected_found, lemma_nothing_collected};

    reveal_strlit("type");
    reveal_strlit("properties");
    reveal_strlit("required");
    assert("type"@.len() == 4);
    assert("properties"@.len() == 10);
    assert("required"@.len() == 8);
    assert(seq!["name"@].map_values(|s: Seq<char>| Json::String(s)) =~= seq![
        Json::String("name"@),
    ]);
}

/// The tools of discovery say what they take: a search the text, the limit and the
/// offset, with their defaults, and the others the name of a tool; a call also takes the
/// arguments, which may be any. Only calls reach the world outside.
pub proof fn law_discovery_tools_say_what_they_take()
    ensures
        ({
            let all = discovery_tools();
            let search = crate::table::lookup(all[0].input_schema, "properties"@)->0;
            let inspect = crate::table::lookup(all[1].input_schema, "properties"@)->0;
            let read = crate::table::lookup(all[2].input_schema, "properties"@)->0;
            let query = field(search, "query"@)->0;
            let limit = field(search, "limit"@)->0;
            let offset = field(search, "offset"@)->0;
            &&& field(search, "query"@) is Some && field(search, "limit"@) is Some
            &&& field(search, "offset"@) is Some
            &&& field(query, "type"@) == Some(Json::String("string"@))
            &&& field(query, "default"@) == Some(Json::String(""@))
            &&& field(limit, "type"@) == Some(Json::String("number"@))
            &&& field(limit, "default"@) == Some(Json::Number(Number::PosInt(5)))
            &&& field(offset, "type"@) == Some(Json::String("number"@))
            &&& field(offset, "default"@) == Some(Json::Number(Number::PosInt(0)))
            &&& field(inspect, "name"@) matches Some(name) && field(name, "type"@) == Some(
                Json::String("string"@),
            )
            &&& field(read, "name"@) matches Some(name) && field(name, "type"@) == Some(
                Json::String("string"@),
            )
            &&& field(read, "arguments"@) matches Some(arguments) && field(arguments, "type"@)
                == Some(Json::String("object"@)) && field(arguments, "additionalProperties"@)
                == Some(Json::Bool(true))
            &&& all[3].input_schema == all[2].input_schema
            &&& all[0].annotations->0.open_world == Some(false)
            &&& all[1].annotations->0.open_world == Some(false)
            &&& all[2].annotations->0.open_world == Some(true)
            &&& all[3].annotations->0.open_world == Some(true)
        }),
{
    broadcast use {lemma_collected_found, lemma_nothing_collected};

    lemma_discovery_keys();
}

/// The keys of the schemas of discovery differ.
proof fn lemma_discovery_keys()
    ensures
        "type"@ != "properties"@,
        "type"@ != "required"@,
        "type"@ != "query"@,
        "type"@ != "limit"@,
        "type"@ != "offset"@,
        "type"@ != "default"@,
        "type"@ != "name"@,
        "type"@ != "arguments"@,
        "type"@ != "additionalProperties"@,
        "properties"@ != "required"@,
        "properties"@ != "query"@,
        "properties"@ != "limit"@,
        "properties"@ != "offset"@,
        "properties"@ != "default"@,
        "properties"@ != "name"@,
        "properties"@ != "arguments"@,
        "properties"@ != "additionalProperties"@,
        "required"@ != "query"@,
        "required"@ != "limit"@,
        "required"@ != "offset"@,
        "required"@ != "default"@,
        "required"@ != "name"@,
        "required"@ != "arguments"@,
        "required"@ != "additionalProperties"@,
        "query"@ != "limit"@,
        "query"@ != "offset"@,
        "query"@ != "default"@,
        "query"@ != "name"@,
        "query"@ != "arguments"@,
        "query"@ != "additionalProperties"@,
        "limit"@ != "offset"@,
        "limit"@ != "default"@,
        "limit"@ != "name"@,
        "limit"@ != "arguments"@,
        "limit"@ != "additionalProperties"@,
        "offset"@ != "default"@,
        "offset"@ != "name"@,
        "offset"@ != "arguments"@,
        "offset"@ != "additionalProperties"@,
        "default"@ != "name"@,
        "default"@ != "arguments"@,
        "default"@ != "additionalProperties"@,
        "name"@ != "arguments"@,
        "name"@ != "additionalProperties"@,
        "arguments"@ != "additionalProperties"@,
{
    reveal_strlit("type");
    reveal_strlit("properties");
    reveal_strlit("required");
    reveal_strlit("query");
    reveal_strlit("limit");
    reveal_strlit("offset");
    reveal_strlit("default");
    reveal_strlit("name");
    reveal_strlit("arguments");
    reveal_strlit("additionalProperties");
    assert("type"@.len() == 4);
    assert("properties"@.len() == 10);
    assert("required"@.len() == 8);
    assert("query"@.len() == 5);
    assert("limit"@.len() == 5);
    assert("offset"@.len() == 6);
    assert("default"@.len() == 7);
    assert("name"@.len() == 4);
    assert("arguments"@.len() == 9);
    assert("additionalProperties"@.len() == 20);
    assert("limit"@[0] == 'l');
    assert("name"@[0] == 'n');
    assert("query"@[0] == 'q');
    assert("type"@[0] == 't');
}

} // verus!
