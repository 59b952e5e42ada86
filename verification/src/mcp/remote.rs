//! Tools of remote MCP servers as commands.

use vstd::prelude::*;
use crate::command::execute::CommandResult;
use crate::command::CommandDef;
use crate::headers::{http_name, http_value, is_http_name, is_http_value};
use crate::schema::{fields, recased, to_kebab, Field, FieldMeta, FieldType, Kind};
use crate::table;
use crate::table::{insert_text, inserted, keyed, lookup, sorted, stored, text_table};
use crate::text::{cat3, copy_opt, lowered, opt_text, same, texts, to_ascii_lowercase};
use crate::value::{
    collected, copy_opt_value, entries, field, get, lemma_array_view, lemma_collected_push,
    lemma_object_view, natural, new_object, object, opt_value, put, store, string_value, text_at,
    values, Json, Number, Value,
};

verus! {

/// Options for projecting a remote MCP server as commands.
#[derive(Debug, Clone)]
pub struct McpRemoteOptions {
    /// Exact MCP standards the client accepts, in preference order.
    pub standards: Vec<String>,
    /// Bearer token sent as `Authorization: Bearer <token>`.
    ///
    /// Supply the token alone, without the `Bearer ` prefix. Most private remote
    /// servers need nothing more than this.
    pub auth_token: Option<String>,
    /// Additional headers sent with every request, as `(name, value)` pairs.
    ///
    /// Malformed names or values are reported when the transport is built.
    pub headers: Vec<(String, String)>,
}

impl Default for McpRemoteOptions {
    fn default() -> (r: Self)
        ensures
            r.standards@.len() == 0,
            r.auth_token is None,
            r.headers@.len() == 0,
    {
        McpRemoteOptions { standards: Vec::new(), auth_token: None, headers: Vec::new() }
    }
}

impl McpRemoteOptions {
    /// Options carrying only a bearer token.
    pub fn bearer(token: String) -> (r: Self)
        ensures
            r.standards@.len() == 0,
            r.auth_token == Some(token),
            r.headers@.len() == 0,
    {
        McpRemoteOptions { standards: Vec::new(), auth_token: Some(token), headers: Vec::new() }
    }
}

// ---------------------------------------------------------------------------
// Headers
// ---------------------------------------------------------------------------

/// A header that cannot be sent.
#[derive(Debug, Clone)]
pub struct RemoteHeaderError {
    /// Human-readable error message, which names the header.
    pub message: String,
    /// Machine-readable error code.
    pub code: String,
}

/// The message on the first header that cannot be sent, from one of them on.
pub open spec fn bad_header(all: Seq<(Seq<char>, Seq<char>)>, from: nat) -> Option<Seq<char>>
    decreases all.len() - from,
{
    if from >= all.len() {
        None
    } else if !http_name(all[from as int].0) {
        Some("`"@ + all[from as int].0 + "` is not a valid header name"@)
    } else if !http_value(all[from as int].1) {
        Some("the value for header `"@ + all[from as int].0 + "` is not valid"@)
    } else {
        bad_header(all, from + 1)
    }
}

fn find_bad_header(headers: &Vec<(String, String)>) -> (r: Option<String>)
    ensures
        opt_text(r) == bad_header(text_table(headers@), 0),
{
    let ghost all = text_table(headers@);
    let mut i: usize = 0;
    while i < headers.len()
        invariant
            i <= headers@.len(),
            all == text_table(headers@),
            bad_header(all, i as nat) == bad_header(all, 0),
        decreases headers.len() - i,
    {
        assert(all[i as int] == (headers@[i as int].0@, headers@[i as int].1@));
        let name = headers[i].0.as_str();
        if !is_http_name(name) {
            return Some(cat3("`", name, "` is not a valid header name"));
        }
        if !is_http_value(headers[i].1.as_str()) {
            return Some(cat3("the value for header `", name, "` is not valid"));
        }
        i += 1;
    }
    None
}

/// The headers of a request: the last value of each name. Names are in lower case, and
/// in order.
pub open spec fn header_table(all: Seq<(Seq<char>, Seq<char>)>) -> Seq<(Seq<char>, Seq<char>)>
    decreases all.len(),
{
    if all.len() == 0 {
        Seq::empty()
    } else {
        inserted(header_table(all.drop_last()), lowered(all.last().0), all.last().1)
    }
}

/// Converts plain `(name, value)` pairs into the headers of a request, each name once
/// and in lower case.
///
/// Reports the offending header by name, since a rejected header is otherwise
/// indistinguishable from an authentication failure at the far end.
pub fn remote_header_map(headers: &Vec<(String, String)>) -> (r: Result<
    Vec<(String, String)>,
    RemoteHeaderError,
>)
    ensures
        match bad_header(text_table(headers@), 0) {
            None => {
                &&& r matches Ok(map)
                &&& text_table(map@) == header_table(text_table(headers@))
                &&& sorted(text_table(map@))
            },
            Some(message) => {
                &&& r matches Err(error)
                &&& error.message@ == message
                &&& error.code@ == "INVALID_HEADER"@
            },
        },
{
    if let Some(message) = find_bad_header(headers) {
        return Err(RemoteHeaderError { message, code: "INVALID_HEADER".to_string() });
    }
    let ghost all = text_table(headers@);
    let mut map: Vec<(String, String)> = Vec::new();
    let mut i: usize = 0;
    assert(text_table(map@) =~= header_table(all.take(0)));
    while i < headers.len()
        invariant
            i <= headers@.len(),
            all == text_table(headers@),
            text_table(map@) == header_table(all.take(i as int)),
            sorted(text_table(map@)),
        decreases headers.len() - i,
    {
        assert(all.take(i + 1).drop_last() =~= all.take(i as int));
        assert(all.take(i + 1).last() == (headers@[i as int].0@, headers@[i as int].1@));
        let name = to_ascii_lowercase(headers[i].0.as_str());
        proof {
            table::lemma_sorted_inserted(text_table(map@), name@, headers@[i as int].1@);
        }
        insert_text(&mut map, name, headers[i].1.clone());
        i += 1;
    }
    assert(all.take(all.len() as int) =~= all);
    Ok(map)
}

// ---------------------------------------------------------------------------
// Tools
// ---------------------------------------------------------------------------

/// A tool of a remote server.
#[derive(Debug)]
pub struct RemoteTool {
    /// Tool name.
    pub name: String,
    /// Human-readable description.
    pub description: Option<String>,
    /// JSON Schema for the input, by its entries.
    pub input_schema: Vec<(String, Value)>,
    /// JSON Schema for the output.
    pub output_schema: Option<Value>,
    /// Whether the tool says that it does not modify its environment.
    pub read_only_hint: Option<bool>,
}

/// A tool of a remote server as a command.
#[derive(Debug)]
pub struct RemoteCommand {
    /// The command.
    pub def: CommandDef,
    /// The tool that the command calls.
    pub tool: String,
    /// The tool through which that tool is called, where the server lists its tools by
    /// progressive discovery.
    pub wrapper: Option<String>,
}

/// The names of tools.
pub open spec fn tool_names(tools: Seq<RemoteTool>) -> Seq<Seq<char>> {
    tools.map_values(|t: RemoteTool| t.name@)
}

/// Whether tools are those of progressive discovery.
pub open spec fn progressive(tools: Seq<RemoteTool>) -> bool {
    &&& tools.len() == 4
    &&& tool_names(tools).contains("search_tools"@)
    &&& tool_names(tools).contains("get_tool_details"@)
    &&& tool_names(tools).contains("call_read_tool"@)
    &&& tool_names(tools).contains("call_write_tool"@)
}

fn has_tool(tools: &Vec<RemoteTool>, name: &str) -> (r: bool)
    ensures
        r == tool_names(tools@).contains(name@),
{
    let ghost all = tool_names(tools@);
    let mut i: usize = 0;
    while i < tools.len()
        invariant
            i <= tools@.len(),
            all == tool_names(tools@),
            forall|k: int| 0 <= k < i ==> all[k] != name@,
        decreases tools.len() - i,
    {
        assert(all[i as int] == tools@[i as int].name@);
        if same(tools[i].name.as_str(), name) {
            return true;
        }
        i += 1;
    }
    false
}

/// Whether tools are those of progressive discovery.
pub fn is_progressive(tools: &Vec<RemoteTool>) -> (r: bool)
    ensures
        r == progressive(tools@),
{
    tools.len() == 4 && has_tool(tools, "search_tools") && has_tool(tools, "get_tool_details")
        && has_tool(tools, "call_read_tool") && has_tool(tools, "call_write_tool")
}

/// The type of a field that a schema describes.
pub open spec fn remote_kind(schema: Json) -> Kind {
    match schema_text(schema, "type"@) {
        Some(kind) => if kind == "boolean"@ {
            Kind::Boolean
        } else if kind == "integer"@ || kind == "number"@ {
            Kind::Number
        } else if kind == "array"@ {
            Kind::Array(Box::new(Kind::Value))
        } else if kind == "object"@ {
            Kind::Value
        } else {
            Kind::String
        },
        None => Kind::String,
    }
}

/// The text under a key of a schema.
pub open spec fn schema_text(schema: Json, key: Seq<char>) -> Option<Seq<char>> {
    match schema {
        Json::Object(all) => text_at(all, key),
        _ => None,
    }
}

/// The value under a key of a schema.
pub open spec fn schema_value(schema: Json, key: Seq<char>) -> Option<Json> {
    match schema {
        Json::Object(all) => lookup(all, key),
        _ => None,
    }
}

/// The field that a property of a schema describes.
pub open spec fn remote_field_model(name: Seq<char>, schema: Json, required: bool) -> Field {
    Field {
        name,
        cli_name: recased(name, '_', '-'),
        description: schema_text(schema, "description"@),
        kind: remote_kind(schema),
        required,
        default: schema_value(schema, "default"@),
        alias: None,
        deprecated: false,
        env_name: None,
    }
}

fn get_schema_text(schema: &Value, key: &str) -> (r: Option<String>)
    ensures
        opt_text(r) == schema_text(schema@, key@),
{
    broadcast use lemma_object_view;

    match schema {
        Value::Object(all) => match get(all, key) {
            Some(Value::String(text)) => Some(text.clone()),
            _ => None,
        },
        _ => None,
    }
}

fn get_schema_value(schema: &Value, key: &str) -> (r: Option<Value>)
    ensures
        opt_value(r) == schema_value(schema@, key@),
{
    broadcast use lemma_object_view;

    match schema {
        Value::Object(all) => match get(all, key) {
            Some(value) => Some(value.copy()),
            None => None,
        },
        _ => None,
    }
}

/// Makes the field that a property of a schema describes.
pub fn remote_field(name: &str, schema: &Value, required: bool) -> (r: FieldMeta)
    ensures
        r@ == remote_field_model(name@, schema@, required),
{
    let field_type = match get_schema_text(schema, "type") {
        Some(kind) => {
            if same(kind.as_str(), "boolean") {
                FieldType::Boolean
            } else if same(kind.as_str(), "integer") || same(kind.as_str(), "number") {
                FieldType::Number
            } else if same(kind.as_str(), "array") {
                FieldType::Array(Box::new(FieldType::Value))
            } else if same(kind.as_str(), "object") {
                FieldType::Value
            } else {
                FieldType::String
            }
        },
        None => FieldType::String,
    };
    assert(FieldType::Value@ == Kind::Value);
    assert(field_type@ == remote_kind(schema@));
    FieldMeta {
        name: name.to_string(),
        cli_name: to_kebab(name),
        description: get_schema_text(schema, "description"),
        field_type,
        required,
        default: get_schema_value(schema, "default"),
        alias: None,
        deprecated: false,
        env_name: None,
    }
}

/// The names that a schema requires: the texts among those listed.
pub open spec fn required_texts(items: Seq<Json>) -> Seq<Seq<char>>
    decreases items.len(),
{
    if items.len() == 0 {
        Seq::empty()
    } else {
        let before = required_texts(items.drop_last());
        match items.last() {
            Json::String(text) => before.push(text),
            _ => before,
        }
    }
}

/// The names that a tool requires.
pub open spec fn tool_requires(schema: Seq<(Seq<char>, Json)>) -> Seq<Seq<char>> {
    match lookup(schema, "required"@) {
        Some(Json::Array(items)) => required_texts(items),
        _ => Seq::empty(),
    }
}

/// The properties of a tool's input.
pub open spec fn tool_properties(schema: Seq<(Seq<char>, Json)>) -> Seq<(Seq<char>, Json)> {
    match lookup(schema, "properties"@) {
        Some(Json::Object(all)) => all,
        _ => Seq::empty(),
    }
}

/// The fields of a tool's input.
pub open spec fn tool_fields(schema: Seq<(Seq<char>, Json)>) -> Seq<Field> {
    tool_properties(schema).map_values(
        |e: (Seq<char>, Json)|
            remote_field_model(e.0, e.1, tool_requires(schema).contains(e.0)),
    )
}

fn list_required(schema: &Vec<(String, Value)>) -> (r: Vec<String>)
    ensures
        texts(r@) == tool_requires(entries(schema@)),
{
    broadcast use lemma_array_view;

    let mut out: Vec<String> = Vec::new();
    assert(texts(out@) =~= Seq::empty());
    if let Some(Value::Array(items)) = get(schema, "required") {
        let ghost all = values(items@);
        let mut i: usize = 0;
        assert(all.take(0) =~= Seq::empty());
        while i < items.len()
            invariant
                i <= items@.len(),
                all == values(items@),
                texts(out@) == required_texts(all.take(i as int)),
            decreases items.len() - i,
        {
            assert(all.take(i + 1).drop_last() =~= all.take(i as int));
            assert(all.take(i + 1).last() == items@[i as int]@);
            if let Value::String(text) = &items[i] {
                let ghost was = texts(out@);
                out.push(text.clone());
                assert(texts(out@) =~= was.push(text@));
            }
            i += 1;
        }
        assert(all.take(all.len() as int) =~= all);
    }
    out
}

fn list_fields(schema: &Vec<(String, Value)>) -> (r: Vec<FieldMeta>)
    ensures
        fields(r@) == tool_fields(entries(schema@)),
{
    broadcast use lemma_object_view;

    let required = list_required(schema);
    let ghost needed = tool_requires(entries(schema@));
    let ghost want = tool_fields(entries(schema@));
    let mut out: Vec<FieldMeta> = Vec::new();
    assert(fields(out@) =~= Seq::empty());
    if let Some(Value::Object(properties)) = get(schema, "properties") {
        let ghost all = entries(properties@);
        let mut i: usize = 0;
        assert(fields(out@) =~= want.take(0));
        while i < properties.len()
            invariant
                i <= properties@.len(),
                all == entries(properties@),
                needed == texts(required@),
                want == all.map_values(
                    |e: (Seq<char>, Json)| remote_field_model(e.0, e.1, needed.contains(e.0)),
                ),
                fields(out@) == want.take(i as int),
            decreases properties.len() - i,
        {
            let ghost was = fields(out@);
            assert(all[i as int] == (properties@[i as int].0@, properties@[i as int].1@));
            let name = properties[i].0.as_str();
            let needs = crate::cli::tree::holds_text(&required, name);
            out.push(remote_field(name, &properties[i].1, needs));
            assert(fields(out@) =~= was.push(want[i as int]));
            assert(want.take(i + 1) =~= want.take(i as int).push(want[i as int]));
            i += 1;
        }
        assert(want.take(want.len() as int) =~= want);
    } else {
        assert(want =~= Seq::empty());
    }
    out
}

/// The tool through which a tool is called.
pub open spec fn wrapper_of(tool: RemoteTool, discovered: bool) -> Option<Seq<char>> {
    if !discovered {
        None
    } else if tool.read_only_hint == Some(true) {
        Some("call_read_tool"@)
    } else {
        Some("call_write_tool"@)
    }
}

/// Whether a command stands for a tool: it has its name, description, fields and output
/// schema, and nothing else.
pub open spec fn stands_for(
    command: RemoteCommand,
    tool: RemoteTool,
    discovered: bool,
    handler: int,
) -> bool {
    let def = command.def;
    &&& command.tool@ == tool.name@
    &&& opt_text(command.wrapper) == wrapper_of(tool, discovered)
    &&& def.name@ == tool.name@
    &&& opt_text(def.description) == opt_text(tool.description)
    &&& def.args_fields@.len() == 0
    &&& fields(def.options_fields@) == tool_fields(entries(tool.input_schema@))
    &&& def.env_fields@.len() == 0
    &&& def.aliases@.len() == 0
    &&& def.command_aliases@.len() == 0
    &&& def.examples@.len() == 0
    &&& def.hint is None
    &&& def.format is None
    &&& def.output_policy is None
    &&& def.handler == handler
    &&& def.mcp is None
    &&& def.middleware@.len() == 0
    &&& opt_value(def.output_schema) == opt_value(tool.output_schema)
}

/// Makes a command of a tool. The command's handler has the given number.
pub fn project_tool(tool: &RemoteTool, discovered: bool, handler: usize) -> (r: RemoteCommand)
    ensures
        stands_for(r, *tool, discovered, handler as int),
{
    let reads = match tool.read_only_hint {
        Some(b) => b,
        None => false,
    };
    let wrapper = if !discovered {
        None
    } else if reads {
        Some("call_read_tool".to_string())
    } else {
        Some("call_write_tool".to_string())
    };
    let def = CommandDef {
        name: tool.name.clone(),
        description: copy_opt(&tool.description),
        args_fields: Vec::new(),
        options_fields: list_fields(&tool.input_schema),
        env_fields: Vec::new(),
        aliases: Vec::new(),
        command_aliases: Vec::new(),
        examples: Vec::new(),
        hint: None,
        format: None,
        output_policy: None,
        handler,
        mcp: None,
        middleware: Vec::new(),
        output_schema: copy_opt_value(&tool.output_schema),
    };
    RemoteCommand { def, tool: tool.name.clone(), wrapper }
}

/// The position of the last tool of a name among the first `n`.
pub open spec fn last_named(tools: Seq<RemoteTool>, name: Seq<char>, n: nat) -> Option<nat>
    decreases n,
{
    if n == 0 {
        None
    } else if tools[n - 1].name@ == name {
        Some((n - 1) as nat)
    } else {
        last_named(tools, name, (n - 1) as nat)
    }
}

/// A position that is found is one of the first `n`, of a tool of that name.
proof fn lemma_last_named(tools: Seq<RemoteTool>, name: Seq<char>, n: nat)
    ensures
        last_named(tools, name, n) matches Some(i) ==> i < n && tools[i as int].name@ == name,
    decreases n,
{
    if n > 0 && tools[n - 1].name@ != name {
        lemma_last_named(tools, name, (n - 1) as nat);
    }
}

/// Makes commands of tools, each name once and in order. The handler of a command has
/// the number of its tool.
pub fn project_remote_commands(tools: &Vec<RemoteTool>, discovered: bool) -> (r: Vec<
    (String, RemoteCommand),
>)
    ensures
        sorted(keyed(r@)),
        forall|name: Seq<char>|
            #![trigger lookup(keyed(r@), name)]
            match last_named(tools@, name, tools@.len()) {
                None => lookup(keyed(r@), name) is None,
                Some(i) => lookup(keyed(r@), name) matches Some(command) && stands_for(
                    command,
                    tools@[i as int],
                    discovered,
                    i as int,
                ),
            },
{
    let mut out: Vec<(String, RemoteCommand)> = Vec::new();
    let mut i: usize = 0;
    proof {
        assert forall|name: Seq<char>| #[trigger] lookup(keyed(out@), name) is None by {
            assert(keyed(out@) =~= Seq::empty());
            table::lemma_position_from(table::keys(keyed(out@)), name, 0);
        }
    }
    while i < tools.len()
        invariant
            i <= tools@.len(),
            sorted(keyed(out@)),
            forall|name: Seq<char>|
                #![trigger lookup(keyed(out@), name)]
                match last_named(tools@, name, i as nat) {
                    None => lookup(keyed(out@), name) is None,
                    Some(k) => lookup(keyed(out@), name) matches Some(command) && stands_for(
                        command,
                        tools@[k as int],
                        discovered,
                        k as int,
                    ),
                },
        decreases tools.len() - i,
    {
        let ghost was = keyed(out@);
        let command = project_tool(&tools[i], discovered, i);
        let ghost new = command;
        table::insert(&mut out, tools[i].name.clone(), command);
        proof {
            table::lemma_sorted_inserted(was, tools@[i as int].name@, new);
            assert forall|name: Seq<char>|
                #![trigger lookup(keyed(out@), name)]
                match last_named(tools@, name, (i + 1) as nat) {
                    None => lookup(keyed(out@), name) is None,
                    Some(k) => lookup(keyed(out@), name) matches Some(command) && stands_for(
                        command,
                        tools@[k as int],
                        discovered,
                        k as int,
                    ),
                } by {
                table::lemma_lookup_inserted(was, tools@[i as int].name@, new, name);
                assert(lookup(was, name) == lookup(was, name));
            }
        }
        i += 1;
    }
    out
}

// ---------------------------------------------------------------------------
// Discovery
// ---------------------------------------------------------------------------

/// Makes the arguments of a search from an offset on.
pub fn search_arguments(offset: u64) -> (r: Vec<(String, Value)>)
    ensures
        entries(r@) == collected(
            Seq::empty().push(("query"@, Json::String(""@))).push(("limit"@, natural(20))).push(
                ("offset"@, natural(offset as nat)),
            ),
        ),
{
    broadcast use lemma_collected_push;

    let mut out = new_object();
    put(&mut out, "query", string_value(""));
    put(&mut out, "limit", Value::Number(Number::PosInt(20)));
    put(&mut out, "offset", Value::Number(Number::PosInt(offset)));
    out
}

/// Makes the arguments that ask for the details of a tool.
pub fn details_arguments(name: &str) -> (r: Vec<(String, Value)>)
    ensures
        entries(r@) == collected(Seq::empty().push(("name"@, Json::String(name@)))),
{
    broadcast use lemma_collected_push;

    let mut out = new_object();
    put(&mut out, "name", string_value(name));
    out
}

/// The names of the tools that a search has found.
pub open spec fn found_names(items: Seq<Json>) -> Seq<Seq<char>>
    decreases items.len(),
{
    if items.len() == 0 {
        Seq::empty()
    } else {
        let before = found_names(items.drop_last());
        match schema_text(items.last(), "name"@) {
            Some(name) => before.push(name),
            None => before,
        }
    }
}

/// Gives the names of the tools that a search has found.
pub fn read_names(result: &Value) -> (r: Vec<String>)
    ensures
        texts(r@) == (match schema_value(result@, "tools"@) {
            Some(Json::Array(items)) => found_names(items),
            _ => Seq::empty(),
        }),
{
    broadcast use {lemma_array_view, lemma_object_view};

    let mut out: Vec<String> = Vec::new();
    assert(texts(out@) =~= Seq::empty());
    let object = match result {
        Value::Object(object) => object,
        _ => {
            return out;
        },
    };
    if let Some(Value::Array(items)) = get(object, "tools") {
        let ghost all = values(items@);
        let mut i: usize = 0;
        assert(all.take(0) =~= Seq::empty());
        while i < items.len()
            invariant
                i <= items@.len(),
                all == values(items@),
                texts(out@) == found_names(all.take(i as int)),
            decreases items.len() - i,
        {
            assert(all.take(i + 1).drop_last() =~= all.take(i as int));
            assert(all.take(i + 1).last() == items@[i as int]@);
            if let Some(name) = get_schema_text(&items[i], "name") {
                let ghost was = texts(out@);
                let ghost text = name@;
                out.push(name);
                assert(texts(out@) =~= was.push(text));
            }
            i += 1;
        }
        assert(all.take(all.len() as int) =~= all);
    }
    out
}

/// Decides where the next search begins: nowhere behind the last page, and never at or
/// before the place where the last one began.
pub fn next_search(offset: u64, result: &Value) -> (r: Result<Option<u64>, String>)
    ensures
        match schema_value(result@, "nextOffset"@) {
            Some(Json::Number(Number::PosInt(next))) => if next <= offset {
                r matches Err(message) && message@
                    == "MCP tool catalog returned a non-advancing offset"@
            } else {
                r == Ok::<_, String>(Some(next))
            },
            _ => r == Ok::<Option<u64>, String>(None),
        },
{
    match get_schema_value(result, "nextOffset") {
        Some(Value::Number(Number::PosInt(next))) => {
            if next <= offset {
                Err("MCP tool catalog returned a non-advancing offset".to_string())
            } else {
                Ok(Some(next))
            }
        },
        _ => Ok(None),
    }
}

// ---------------------------------------------------------------------------
// Calls
// ---------------------------------------------------------------------------

/// The entries with others stored in them, one after the other.
pub open spec fn stored_all(base: Seq<(Seq<char>, Json)>, more: Seq<(Seq<char>, Json)>) -> Seq<
    (Seq<char>, Json),
>
    decreases more.len(),
{
    if more.len() == 0 {
        base
    } else {
        stored(stored_all(base, more.drop_last()), more.last().0, more.last().1)
    }
}

/// The entries with those of an object stored in them, one after the other; other
/// values change nothing.
pub open spec fn extended(base: Seq<(Seq<char>, Json)>, value: Json) -> Seq<(Seq<char>, Json)> {
    match value {
        Json::Object(all) => stored_all(base, all),
        _ => base,
    }
}

fn extend(base: &mut Vec<(String, Value)>, value: &Value)
    ensures
        entries(final(base)@) == extended(entries(old(base)@), value@),
{
    broadcast use lemma_object_view;

    if let Value::Object(fields) = value {
        let ghost start = entries(base@);
        let ghost all = entries(fields@);
        let mut i: usize = 0;
        assert(all.take(0) =~= Seq::empty());
        while i < fields.len()
            invariant
                i <= fields@.len(),
                all == entries(fields@),
                entries(base@) == stored_all(start, all.take(i as int)),
            decreases fields.len() - i,
        {
            assert(all.take(i + 1).drop_last() =~= all.take(i as int));
            assert(all.take(i + 1).last() == (fields@[i as int].0@, fields@[i as int].1@));
            store(base, fields[i].0.clone(), fields[i].1.copy());
            i += 1;
        }
        assert(all.take(all.len() as int) =~= all);
    }
}

/// The call that a command makes: the name of the tool and its arguments. The options
/// take the place of arguments of the same name.
pub open spec fn remote_call(
    tool: Seq<char>,
    wrapper: Option<Seq<char>>,
    args: Json,
    options: Json,
) -> (Seq<char>, Seq<(Seq<char>, Json)>) {
    let arguments = extended(extended(Seq::empty(), args), options);
    match wrapper {
        None => (tool, arguments),
        Some(name) => (
            name,
            collected(
                Seq::empty().push(("name"@, Json::String(tool))).push(
                    ("arguments"@, Json::Object(arguments)),
                ),
            ),
        ),
    }
}

/// Makes the call that a command makes.
pub fn make_call(tool: &str, wrapper: &Option<String>, args: &Value, options: &Value) -> (r: (
    String,
    Vec<(String, Value)>,
))
    ensures
        (r.0@, entries(r.1@)) == remote_call(tool@, opt_text(*wrapper), args@, options@),
{
    broadcast use {lemma_collected_push, lemma_object_view};

    let mut arguments: Vec<(String, Value)> = Vec::new();
    assert(entries(arguments@) =~= Seq::empty());
    extend(&mut arguments, args);
    extend(&mut arguments, options);
    match wrapper {
        None => (tool.to_string(), arguments),
        Some(name) => {
            let mut outer = new_object();
            put(&mut outer, "name", string_value(tool));
            put(&mut outer, "arguments", Value::Object(arguments));
            (name.clone(), outer)
        },
    }
}

/// What a remote server answers a call with.
#[derive(Debug)]
pub enum RemoteAnswer {
    /// The call succeeded with a value.
    Success(Value),
    /// The tool failed, with the first text of its content, where that is a text.
    Failure(Option<String>),
    /// The call did not come through, with the text of the error.
    Broken(String),
}

/// Makes the result of a command of what the remote server answers.
pub fn remote_result(answer: RemoteAnswer) -> (r: CommandResult)
    ensures
        match answer {
            RemoteAnswer::Success(value) => r == (CommandResult::Success {
                data: value,
                cta: None,
                exit_code: None,
            }),
            RemoteAnswer::Failure(text) => r matches CommandResult::Error {
                code,
                message,
                retryable,
                exit_code,
                cta,
            } && code@ == "REMOTE_MCP_ERROR"@ && message@ == (match text {
                Some(said) => said@,
                None => "Remote MCP tool failed"@,
            }) && !retryable && exit_code == Some(1i32) && cta is None,
            RemoteAnswer::Broken(text) => r matches CommandResult::Error {
                code,
                message,
                retryable,
                exit_code,
                cta,
            } && code@ == "REMOTE_MCP_ERROR"@ && message == text && retryable && exit_code
                == Some(1i32) && cta is None,
        },
{
    match answer {
        RemoteAnswer::Success(value) => CommandResult::Success {
            data: value,
            cta: None,
            exit_code: None,
        },
        RemoteAnswer::Failure(text) => CommandResult::Error {
            code: "REMOTE_MCP_ERROR".to_string(),
            message: match text {
                Some(said) => said,
                None => "Remote MCP tool failed".to_string(),
            },
            retryable: false,
            exit_code: Some(1),
            cta: None,
        },
        RemoteAnswer::Broken(text) => CommandResult::Error {
            code: "REMOTE_MCP_ERROR".to_string(),
            message: text,
            retryable: true,
            exit_code: Some(1),
            cta: None,
        },
    }
}

/// Chooses the value of an answer: the structured content, or what the first text of
/// the content holds as JSON, or `null`.
pub fn success_value(structured: Option<Value>, parsed: Option<Value>) -> (r: Value)
    ensures
        r == (match structured {
            Some(value) => value,
            None => match parsed {
                Some(value) => value,
                None => Value::Null,
            },
        }),
{
    match structured {
        Some(value) => value,
        None => match parsed {
            Some(value) => value,
            None => Value::Null,
        },
    }
}

// ---------------------------------------------------------------------------
// Laws
// ---------------------------------------------------------------------------

/// A call through a wrapper, taken apart as the server takes it apart, is the direct
/// call.
pub proof fn law_wrapped_calls_are_direct_calls(
    tool: Seq<char>,
    wrapper: Seq<char>,
    args: Json,
    options: Json,
)
    ensures
        ({
            let (name, outer) = remote_call(tool, Some(wrapper), args, options);
            &&& name == wrapper
            &&& text_at(outer, "name"@) == Some(tool)
            &&& crate::mcp::calls::inner_arguments(outer) == remote_call(
                tool,
                None,
                args,
                options,
            ).1
        }),
{
    let arguments = extended(extended(Seq::empty(), args), options);
    let one = Seq::empty().push(("name"@, Json::String(tool)));
    lemma_collected_push(one, ("arguments"@, Json::Object(arguments)));
    lemma_collected_push(Seq::empty(), ("name"@, Json::String(tool)));
    reveal_strlit("name");
    reveal_strlit("arguments");
    assert("name"@.len() != "arguments"@.len());
    table::lemma_lookup_stored(
        collected(one),
        "arguments"@,
        Json::Object(arguments),
        "name"@,
    );
    table::lemma_lookup_stored(
        collected(one),
        "arguments"@,
        Json::Object(arguments),
        "arguments"@,
    );
    table::lemma_lookup_stored(
        collected(Seq::empty()),
        "name"@,
        Json::String(tool),
        "name"@,
    );
}

/// A list of headers is sound exactly where every name and value is valid.
pub proof fn law_bad_headers_are_found(all: Seq<(Seq<char>, Seq<char>)>, from: nat)
    ensures
        bad_header(all, from) is None <==> forall|i: int|
            from <= i < all.len() ==> http_name((#[trigger] all[i]).0) && http_value(all[i].1),
    decreases all.len() - from,
{
    if from < all.len() && http_name(all[from as int].0) && http_value(all[from as int].1) {
        law_bad_headers_are_found(all, from + 1);
    }
}

/// A header counts under its name in lowercase, as it was given last.
pub proof fn law_last_header_counts(
    all: Seq<(Seq<char>, Seq<char>)>,
    name: Seq<char>,
    value: Seq<char>,
    other: Seq<char>,
)
    ensures
        lookup(header_table(all.push((name, value))), lowered(name)) == Some(value),
        other != lowered(name) ==> lookup(header_table(all.push((name, value))), other) == lookup(
            header_table(all),
            other,
        ),
{
    assert(all.push((name, value)).drop_last() =~= all);
    crate::table::lemma_lookup_inserted(header_table(all), lowered(name), value, lowered(name));
    crate::table::lemma_lookup_inserted(header_table(all), lowered(name), value, other);
}

/// The type of a property in the schema of a tool is that of the option for it; without
/// one the option is a text.
pub proof fn law_options_are_of_their_type(schema: Json)
    ensures
        field(schema, "type"@) == Some(Json::String("boolean"@)) ==> remote_kind(schema) is Boolean,
        field(schema, "type"@) == Some(Json::String("integer"@)) ==> remote_kind(schema) is Number,
        field(schema, "type"@) == Some(Json::String("number"@)) ==> remote_kind(schema) is Number,
        field(schema, "type"@) == Some(Json::String("array"@)) ==> remote_kind(schema) is Array,
        field(schema, "type"@) == Some(Json::String("object"@)) ==> remote_kind(schema) is Value,
        field(schema, "type"@) == Some(Json::String("string"@)) ==> remote_kind(schema) is String,
        field(schema, "type"@) is None ==> remote_kind(schema) is String,
{
    lemma_type_names();
}

/// The names of types differ.
proof fn lemma_type_names()
    ensures
        "boolean"@ != "integer"@,
        "boolean"@ != "number"@,
        "boolean"@ != "array"@,
        "boolean"@ != "object"@,
        "boolean"@ != "string"@,
        "integer"@ != "number"@,
        "integer"@ != "array"@,
        "integer"@ != "object"@,
        "integer"@ != "string"@,
        "number"@ != "array"@,
        "number"@ != "object"@,
        "number"@ != "string"@,
        "array"@ != "object"@,
        "array"@ != "string"@,
        "object"@ != "string"@,
{
    reveal_strlit("boolean");
    reveal_strlit("integer");
    reveal_strlit("number");
    reveal_strlit("array");
    reveal_strlit("object");
    reveal_strlit("string");
    assert("boolean"@.len() == 7);
    assert("integer"@.len() == 7);
    assert("number"@.len() == 6);
    assert("array"@.len() == 5);
    assert("object"@.len() == 6);
    assert("string"@.len() == 6);
    assert("boolean"@[0] == 'b');
    assert("integer"@[0] == 'i');
    assert("number"@[0] == 'n');
    assert("object"@[0] == 'o');
    assert("string"@[0] == 's');
}

/// A tool has an option for each of its properties, under the name and its form for the
/// command line, with the description and the default of the schema, and required
/// exactly where the schema lists it.
pub proof fn law_properties_become_options(schema: Seq<(Seq<char>, Json)>, i: int)
    requires
        0 <= i < tool_properties(schema).len(),
    ensures
        ({
            let all = tool_fields(schema);
            let (name, property) = tool_properties(schema)[i];
            &&& all.len() == tool_properties(schema).len()
            &&& all[i].name == name
            &&& all[i].cli_name.len() == name.len()
            &&& forall|k: int|
                0 <= k < name.len() ==> #[trigger] all[i].cli_name[k] == (if name[k] == '_' {
                    '-'
                } else {
                    name[k]
                })
            &&& all[i].kind == remote_kind(property)
            &&& all[i].default == field(property, "default"@)
            &&& field(property, "description"@) matches Some(Json::String(text))
                ==> all[i].description == Some(text)
            &&& !(field(property, "description"@) matches Some(Json::String(_)))
                ==> all[i].description is None
            &&& all[i].required <==> tool_requires(schema).contains(name)
            &&& !all[i].deprecated && all[i].alias is None && all[i].env_name is None
        }),
{
}

/// The properties of a schema are those of the object for them, where there is one.
pub proof fn law_schemas_hold_their_properties(schema: Seq<(Seq<char>, Json)>)
    ensures
        lookup(schema, "properties"@) matches Some(Json::Object(all)) ==> tool_properties(schema)
            == all,
        !(lookup(schema, "properties"@) matches Some(Json::Object(_))) ==> tool_properties(
            schema,
        ).len() == 0,
        lookup(schema, "required"@) matches Some(Json::Array(items)) ==> tool_requires(schema)
            == required_texts(items),
        !(lookup(schema, "required"@) matches Some(Json::Array(_))) ==> tool_requires(schema).len()
            == 0,
{
}

/// The required names are the texts of the list, in order.
pub proof fn law_required_names_are_texts(
    a: Seq<Json>,
    b: Seq<Json>,
    one: Json,
)
    ensures
        required_texts(a + b) == required_texts(a) + required_texts(b),
        one matches Json::String(text) ==> required_texts(seq![one]) == seq![text],
        !(one is String) ==> required_texts(seq![one]).len() == 0,
    decreases b.len(),
{
    reveal_with_fuel(required_texts, 2);
    assert(seq![one].drop_last() =~= Seq::empty());
    assert(required_texts(seq![one].drop_last()) =~= Seq::empty());
    if b.len() == 0 {
        assert(a + b =~= a);
        assert(required_texts(a) + required_texts(b) =~= required_texts(a));
    } else {
        law_required_names_are_texts(a, b.drop_last(), one);
        assert((a + b).drop_last() =~= a + b.drop_last());
        assert((a + b).last() == b.last());
        assert(required_texts(a + b) =~= required_texts(a) + required_texts(b));
    }
}

/// The tools that a search found are named, in order, by the items that have a name.
pub proof fn law_found_tools_are_named(
    a: Seq<Json>,
    b: Seq<Json>,
    one: Json,
)
    ensures
        found_names(a + b) == found_names(a) + found_names(b),
        field(one, "name"@) matches Some(Json::String(text)) ==> found_names(seq![one]) == seq![text],
        !(field(one, "name"@) matches Some(Json::String(_))) ==> found_names(seq![one]).len() == 0,
    decreases b.len(),
{
    reveal_with_fuel(found_names, 2);
    assert(seq![one].drop_last() =~= Seq::empty());
    assert(found_names(seq![one].drop_last()) =~= Seq::empty());
    if b.len() == 0 {
        assert(a + b =~= a);
        assert(found_names(a) + found_names(b) =~= found_names(a));
    } else {
        law_found_tools_are_named(a, b.drop_last(), one);
        assert((a + b).drop_last() =~= a + b.drop_last());
        assert((a + b).last() == b.last());
        assert(found_names(a + b) =~= found_names(a) + found_names(b));
    }
}

/// A tool of a server that has its tools discovered is called through the tool for
/// reading exactly where it only reads, and through the one for writing otherwise; any
/// other tool is called directly.
pub proof fn law_reading_tools_are_called_for_reading(tool: RemoteTool)
    ensures
        wrapper_of(tool, false) is None,
        tool.read_only_hint == Some(true) ==> wrapper_of(tool, true) == Some("call_read_tool"@),
        tool.read_only_hint != Some(true) ==> wrapper_of(tool, true) == Some("call_write_tool"@),
{
}

/// The arguments of a call are those given and the options, and an option wins over an
/// argument of its name.
pub proof fn law_options_win_over_arguments(
    tool: Seq<char>,
    args: Seq<(Seq<char>, Json)>,
    options: Seq<(Seq<char>, Json)>,
    name: Seq<char>,
)
    requires
        crate::table::distinct(args),
        crate::table::distinct(options),
    ensures
        ({
            let (called, sent) = remote_call(
                tool,
                None,
                Json::Object(args),
                Json::Object(options),
            );
            &&& called == tool
            &&& lookup(options, name) is Some ==> lookup(sent, name) == lookup(options, name)
            &&& lookup(options, name) is None ==> lookup(sent, name) == lookup(args, name)
        }),
{
    let base = stored_all(Seq::empty(), args);
    lemma_stored_all(Seq::empty(), args, name);
    lemma_stored_all(base, options, name);
}

proof fn lemma_stored_all(
    base: Seq<(Seq<char>, Json)>,
    more: Seq<(Seq<char>, Json)>,
    name: Seq<char>,
)
    requires
        crate::table::distinct(more),
    ensures
        lookup(more, name) is Some ==> lookup(stored_all(base, more), name) == lookup(more, name),
        lookup(more, name) is None ==> lookup(stored_all(base, more), name) == lookup(base, name),
    decreases more.len(),
{
    crate::table::lemma_position_from(crate::table::keys(more), name, 0);
    if more.len() > 0 {
        let head = more.drop_last();
        assert(crate::table::keys(head) =~= crate::table::keys(more).drop_last());
        lemma_stored_all(base, head, name);
        crate::table::lemma_position_from(crate::table::keys(head), name, 0);
        crate::table::lemma_lookup_stored(
            stored_all(base, head),
            more.last().0,
            more.last().1,
            name,
        );
        assert(crate::table::keys(more)[more.len() - 1] == more.last().0);
        if more.last().0 == name {
            let all = crate::table::keys(more);
            let k = crate::table::position_from(all, name, 0);
            assert(k == Some((more.len() - 1) as nat));
        }
        assert forall|j: int| 0 <= j < head.len() implies crate::table::keys(head)[j]
            == crate::table::keys(more)[j] by {}
    }
}

/// Of tools with one name the last one counts.
pub proof fn law_last_tool_of_a_name_counts(tools: Seq<RemoteTool>, name: Seq<char>, n: nat)
    requires
        n <= tools.len(),
    ensures
        last_named(tools, name, n) matches Some(i) ==> i < n && tools[i as int].name@ == name && (
        forall|j: int| i < j < n ==> (#[trigger] tools[j]).name@ != name),
        last_named(tools, name, n) is None ==> forall|j: int|
            0 <= j < n ==> (#[trigger] tools[j]).name@ != name,
    decreases n,
{
    if n > 0 && tools[n - 1].name@ != name {
        law_last_tool_of_a_name_counts(tools, name, (n - 1) as nat);
    }
}

/// Tools are to be discovered exactly where they are the four for that.
pub proof fn law_four_tools_are_for_discovery(tools: Seq<RemoteTool>)
    ensures
        progressive(tools) ==> tools.len() == 4 && forall|name: Seq<char>|
            name == "search_tools"@ || name == "get_tool_details"@ || name == "call_read_tool"@
                || name == "call_write_tool"@ ==> #[trigger] tool_names(tools).contains(name),
        tools.len() != 4 ==> !progressive(tools),
        !tool_names(tools).contains("search_tools"@) ==> !progressive(tools),
        !tool_names(tools).contains("get_tool_details"@) ==> !progressive(tools),
        !tool_names(tools).contains("call_read_tool"@) ==> !progressive(tools),
        !tool_names(tools).contains("call_write_tool"@) ==> !progressive(tools),
        tools.len() == 4 && tools[0].name@ == "search_tools"@ && tools[1].name@
            == "get_tool_details"@ && tools[2].name@ == "call_read_tool"@ && tools[3].name@
            == "call_write_tool"@ ==> progressive(tools),
{
    if tools.len() == 4 {
        let names = tool_names(tools);
        assert(names[0] == tools[0].name@ && names[1] == tools[1].name@);
        assert(names[2] == tools[2].name@ && names[3] == tools[3].name@);
    }
}

} // verus!
