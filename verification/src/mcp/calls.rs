//! Calls of the MCP server's tools.

use vstd::prelude::*;
use crate::cli::suggest::{to_lowercase, unicode_lowercase};
use crate::json::{json_string, quoted};
use crate::mcp::filter::McpDiscovery;
use crate::mcp::server::{
    find_tool, hints_json, is_read_only, lemma_tool_from, metadata, opt_entries, or_null, tool_from,
    tool_metadata, ResolvedTool,
};
use crate::table;
use crate::table::{keyed, lookup, mapped, ordered};
use crate::text::{cat, cat3, chars_of, contains, occurs, opt_text, same};
use crate::value::{
    copy_entries, entries, field, get, lemma_array_view, lemma_collected_found,
    lemma_collected_push, lemma_nothing_collected, lemma_object_view, natural, new_object, object,
    opt_string, put, string_value, tabled, text_at, to_table, values, Json, Number, Value,
};

verus! {

/// What a discovery tool is answered with.
pub enum Discovery {
    /// A structured result.
    Structured(Value),
    /// A failed result with a text.
    Failed(String),
    /// Nothing yet: the tool that is named in the arguments is to be called.
    Execute,
}

/// What an answer means.
pub enum Found {
    /// A structured result.
    Structured(Json),
    /// A failed result with a text.
    Failed(Seq<char>),
    /// Nothing yet.
    Execute,
}

impl View for Discovery {
    type V = Found;

    open spec fn view(&self) -> Found {
        match *self {
            Discovery::Structured(value) => Found::Structured(value@),
            Discovery::Failed(text) => Found::Failed(text@),
            Discovery::Execute => Found::Execute,
        }
    }
}

/// The natural number at a key, or a default.
pub open spec fn number_or(args: Seq<(Seq<char>, Json)>, key: Seq<char>, default: u64) -> u64 {
    match lookup(args, key) {
        Some(Json::Number(Number::PosInt(n))) => n,
        _ => default,
    }
}

fn get_number(args: &Vec<(String, Value)>, key: &str, default: u64) -> (r: u64)
    ensures
        r == number_or(entries(args@), key@, default),
{
    match get(args, key) {
        Some(Value::Number(Number::PosInt(n))) => *n,
        _ => default,
    }
}

/// The text that tools are searched for, in lower case.
pub open spec fn search_query(args: Seq<(Seq<char>, Json)>) -> Seq<char> {
    unicode_lowercase(
        match text_at(args, "query"@) {
            Some(text) => text,
            None => ""@,
        },
    )
}

/// Whether a search finds a tool: by its name or its description, in lower case.
pub open spec fn finds(query: Seq<char>, tool: ResolvedTool) -> bool {
    query.len() == 0 || occurs(unicode_lowercase(tool.name@), query) || occurs(
        unicode_lowercase(tool.description@),
        query,
    )
}

/// A tool as a search shows it.
pub open spec fn summary(tool: ResolvedTool) -> Json {
    object(
        Seq::empty().push(("name"@, Json::String(tool.name@))).push(
            ("description"@, Json::String(tool.description@)),
        ).push(("annotations"@, hints_json(tool.annotations))),
    )
}

/// The tools that a search finds, in the order of the tools.
pub open spec fn hits(query: Seq<char>, tools: Seq<ResolvedTool>) -> Seq<(Seq<char>, Json)>
    decreases tools.len(),
{
    if tools.len() == 0 {
        Seq::empty()
    } else {
        let before = hits(query, tools.drop_last());
        if finds(query, tools.last()) {
            before.push((tools.last().name@, summary(tools.last())))
        } else {
            before
        }
    }
}

/// A page of a list.
pub open spec fn page(all: Seq<(Seq<char>, Json)>, offset: nat, limit: nat) -> Seq<Json> {
    let rest = if offset >= all.len() {
        Seq::empty()
    } else {
        all.skip(offset as int)
    };
    let shown = if limit >= rest.len() {
        rest
    } else {
        rest.take(limit as int)
    };
    shown.map_values(|e: (Seq<char>, Json)| e.1)
}

/// The result of a search: a page of the tools found, in the order of their names, and
/// where the next page begins.
pub open spec fn search_result(args: Seq<(Seq<char>, Json)>, tools: Seq<ResolvedTool>) -> Json {
    let all = ordered(hits(search_query(args), tools));
    let offset = number_or(args, "offset"@, 0) as nat;
    let shown = page(all, offset, number_or(args, "limit"@, 5) as nat);
    let next = offset + shown.len();
    object(
        Seq::empty().push(("tools"@, Json::Array(shown))).push(
            (
                "nextOffset"@,
                if next < all.len() {
                    natural(next)
                } else {
                    Json::Null
                },
            ),
        ),
    )
}

fn summary_value(tool: &ResolvedTool) -> (r: Value)
    ensures
        r@ == summary(*tool),
{
    broadcast use {lemma_collected_push, lemma_object_view};

    let mut out = new_object();
    put(&mut out, "name", string_value(tool.name.as_str()));
    put(&mut out, "description", string_value(tool.description.as_str()));
    put(&mut out, "annotations", crate::mcp::server::hints_value(&tool.annotations));
    Value::Object(out)
}

fn is_hit(query: &str, tool: &ResolvedTool) -> (r: bool)
    ensures
        r == finds(query@, *tool),
{
    if chars_of(query).len() == 0 {
        return true;
    }
    contains(to_lowercase(tool.name.as_str()).as_str(), query) || contains(
        to_lowercase(tool.description.as_str()).as_str(),
        query,
    )
}

spec fn hit_models(v: Seq<(String, Value)>) -> Seq<(Seq<char>, Json)> {
    mapped(keyed(v), |x: Value| x@)
}

fn collect_hits(query: &str, tools: &Vec<ResolvedTool>) -> (r: Vec<(String, Value)>)
    ensures
        hit_models(r@) == hits(query@, tools@),
{
    let mut out: Vec<(String, Value)> = Vec::new();
    let mut i: usize = 0;
    assert(hit_models(out@) =~= hits(query@, tools@.take(0)));
    while i < tools.len()
        invariant
            i <= tools@.len(),
            hit_models(out@) == hits(query@, tools@.take(i as int)),
        decreases tools.len() - i,
    {
        assert(tools@.take(i + 1).drop_last() =~= tools@.take(i as int));
        assert(tools@.take(i + 1).last() == tools@[i as int]);
        let ghost was = hit_models(out@);
        if is_hit(query, &tools[i]) {
            let value = summary_value(&tools[i]);
            let ghost model = value@;
            out.push((tools[i].name.clone(), value));
            assert(hit_models(out@) =~= was.push((tools@[i as int].name@, model)));
        }
        i += 1;
    }
    assert(tools@.take(tools@.len() as int) =~= tools@);
    out
}

fn take_page(all: Vec<(String, Value)>, offset: u64, limit: u64) -> (r: Vec<Value>)
    ensures
        values(r@) == page(hit_models(all@), offset as nat, limit as nat),
{
    let ghost list = hit_models(all@);
    let ghost want = page(list, offset as nat, limit as nat);
    let mut out: Vec<Value> = Vec::new();
    assert(values(out@) =~= Seq::empty());
    assert(usize::MAX <= u64::MAX);
    let n: usize = all.len();
    if offset >= n as u64 {
        assert(want =~= Seq::empty());
        return out;
    }
    let from: usize = offset as usize;
    let left: usize = n - from;
    let count: usize = if limit >= left as u64 {
        left
    } else {
        limit as usize
    };
    assert(want.len() == count);
    let mut i: usize = 0;
    assert(values(out@) =~= want.take(0));
    while i < count
        invariant
            i <= count,
            count <= left,
            left == n - from,
            n == all@.len(),
            from < n,
            from == offset,
            list == hit_models(all@),
            want == page(list, offset as nat, limit as nat),
            want.len() == count,
            values(out@) == want.take(i as int),
        decreases count - i,
    {
        let ghost was = values(out@);
        assert(want[i as int] == list[from + i].1);
        assert(list[from + i].1 == all@[from + i].1@);
        out.push(all[from + i].1.copy());
        assert(values(out@) =~= was.push(want[i as int]));
        assert(want.take(i + 1) =~= want.take(i as int).push(want[i as int]));
        i += 1;
    }
    assert(want.take(want.len() as int) =~= want);
    out
}

fn search_tools(args: &Vec<(String, Value)>, tools: &Vec<ResolvedTool>) -> (r: Value)
    ensures
        r@ == search_result(entries(args@), tools@),
{
    broadcast use {lemma_collected_push, lemma_object_view, lemma_array_view};

    let query = match get(args, "query") {
        Some(Value::String(text)) => to_lowercase(text.as_str()),
        _ => to_lowercase(""),
    };
    let offset: u64 = get_number(args, "offset", 0);
    let limit: u64 = get_number(args, "limit", 5);
    let list = collect_hits(query.as_str(), tools);
    let ghost listed = keyed(list@);
    let sorted = table::sort(list);
    proof {
        table::lemma_ordered_mapped(listed, |x: Value| x@);
    }
    let ghost all = hit_models(sorted@);
    assert(all == ordered(hits(search_query(entries(args@)), tools@)));
    let total: usize = sorted.len();
    assert(all.len() == total);
    let shown = take_page(sorted, offset, limit);
    let ghost want = page(all, offset as nat, limit as nat);
    assert(shown@.len() == values(shown@).len());
    let count: usize = shown.len();
    assert(usize::MAX <= u64::MAX);
    let next = if offset < total as u64 && count < total - offset as usize {
        Value::Number(Number::PosInt(offset + count as u64))
    } else {
        Value::Null
    };
    let mut out = new_object();
    put(&mut out, "tools", Value::Array(shown));
    put(&mut out, "nextOffset", next);
    Value::Object(out)
}

/// The details of a tool.
pub open spec fn details(tool: ResolvedTool) -> Json {
    object(
        Seq::empty().push(("name"@, Json::String(tool.name@))).push(
            ("description"@, Json::String(tool.description@)),
        ).push(("inputSchema"@, Json::Object(entries(tool.input_schema@)))).push(
            ("outputSchema"@, entries_json(opt_entries(tool.output_schema))),
        ).push(("annotations"@, hints_json(tool.annotations))).push(
            ("instructions"@, or_null(opt_string(opt_text(tool.instructions)))),
        ).push(
            (
                "_meta"@,
                entries_json(
                    metadata(opt_entries(tool.output_meta), opt_text(tool.instructions)),
                ),
            ),
        ),
    )
}

/// An object by its entries, or `null`.
pub open spec fn entries_json(v: Option<Seq<(Seq<char>, Json)>>) -> Json {
    match v {
        Some(all) => Json::Object(all),
        None => Json::Null,
    }
}

fn entries_value(v: Option<Vec<(String, Value)>>) -> (r: Value)
    ensures
        r@ == entries_json(opt_entries(v)),
{
    broadcast use lemma_object_view;

    match v {
        Some(all) => Value::Object(all),
        None => Value::Null,
    }
}

fn details_value(tool: &ResolvedTool) -> (r: Value)
    ensures
        r@ == details(*tool),
{
    broadcast use {lemma_collected_push, lemma_object_view};

    let mut out = new_object();
    put(&mut out, "name", string_value(tool.name.as_str()));
    put(&mut out, "description", string_value(tool.description.as_str()));
    put(&mut out, "inputSchema", Value::Object(copy_entries(&tool.input_schema)));
    let output = match &tool.output_schema {
        Some(all) => Value::Object(copy_entries(all)),
        None => Value::Null,
    };
    put(&mut out, "outputSchema", output);
    put(&mut out, "annotations", crate::mcp::server::hints_value(&tool.annotations));
    let instructions = match &tool.instructions {
        Some(text) => string_value(text.as_str()),
        None => Value::Null,
    };
    put(&mut out, "instructions", instructions);
    put(&mut out, "_meta", entries_value(tool_metadata(tool)));
    Value::Object(out)
}

/// The tool that the arguments name, or the message of the fault.
pub open spec fn named_tool(args: Seq<(Seq<char>, Json)>, tools: Seq<ResolvedTool>) -> Result<
    nat,
    Seq<char>,
> {
    match text_at(args, "name"@) {
        None => Err("Missing tool name"@),
        Some(name) => match tool_from(tools, name, 0) {
            None => Err("Unknown tool: "@ + name),
            Some(i) => Ok(i),
        },
    }
}

fn find_named_tool(args: &Vec<(String, Value)>, tools: &Vec<ResolvedTool>) -> (r: Result<
    usize,
    String,
>)
    ensures
        named_tool(entries(args@), tools@) == (match r {
            Ok(i) => Ok(i as nat),
            Err(text) => Err(text@),
        }),
        r matches Ok(i) ==> i < tools@.len(),
{
    match get(args, "name") {
        Some(Value::String(name)) => match find_tool(tools, name.as_str()) {
            Some(i) => Ok(i),
            None => Err(cat("Unknown tool: ", name.as_str())),
        },
        _ => Err("Missing tool name".to_string()),
    }
}

/// The text of a refusal: a JSON object that says why.
pub open spec fn refusal(message: Seq<char>) -> Seq<char> {
    "{\"error\":"@ + quoted(message) + "}"@
}

fn refusal_text(message: &str) -> (r: String)
    ensures
        r@ == refusal(message@),
{
    cat3("{\"error\":", json_string(message).as_str(), "}")
}

/// What a discovery tool is answered with, or the message of the fault.
pub open spec fn discovered(
    name: Seq<char>,
    args: Seq<(Seq<char>, Json)>,
    tools: Seq<ResolvedTool>,
) -> Result<Found, Seq<char>> {
    if name == "search_tools"@ {
        Ok(Found::Structured(search_result(args, tools)))
    } else if name == "get_tool_details"@ {
        match named_tool(args, tools) {
            Err(message) => Err(message),
            Ok(i) => Ok(Found::Structured(details(tools[i as int]))),
        }
    } else if name == "call_read_tool"@ || name == "call_write_tool"@ {
        match named_tool(args, tools) {
            Err(message) => Err(message),
            Ok(i) => if name == "call_read_tool"@ && !is_read_only(tools[i as int]) {
                Ok(Found::Failed(refusal("Tool is not read-only: "@ + tools[i as int].name@)))
            } else if name == "call_write_tool"@ && is_read_only(tools[i as int]) {
                Ok(Found::Failed(refusal("Tool is read-only: "@ + tools[i as int].name@)))
            } else {
                Ok(Found::Execute)
            },
        }
    } else {
        Err("Unknown discovery tool: "@ + name)
    }
}

/// Answers a discovery tool, or gives the message of the fault.
pub fn discovery_result(
    name: &str,
    args: &Vec<(String, Value)>,
    tools: &Vec<ResolvedTool>,
) -> (r: Result<Discovery, String>)
    ensures
        discovered(name@, entries(args@), tools@) == (match r {
            Ok(answer) => Ok(answer@),
            Err(message) => Err(message@),
        }),
{
    if same(name, "search_tools") {
        return Ok(Discovery::Structured(search_tools(args, tools)));
    }
    if same(name, "get_tool_details") {
        return match find_named_tool(args, tools) {
            Err(message) => Err(message),
            Ok(i) => Ok(Discovery::Structured(details_value(&tools[i]))),
        };
    }
    if same(name, "call_read_tool") || same(name, "call_write_tool") {
        let i = match find_named_tool(args, tools) {
            Err(message) => {
                return Err(message);
            },
            Ok(i) => i,
        };
        let read_only = crate::mcp::server::reads_only(&tools[i]);
        if same(name, "call_read_tool") && !read_only {
            let message = cat("Tool is not read-only: ", tools[i].name.as_str());
            return Ok(Discovery::Failed(refusal_text(message.as_str())));
        }
        if same(name, "call_write_tool") && read_only {
            let message = cat("Tool is read-only: ", tools[i].name.as_str());
            return Ok(Discovery::Failed(refusal_text(message.as_str())));
        }
        return Ok(Discovery::Execute);
    }
    Err(cat("Unknown discovery tool: ", name))
}

/// What is done for a call.
pub enum CallPlan {
    /// Answer a discovery tool.
    Answer(Discovery),
    /// Call the tool at a position, with a table of arguments.
    Call {
        /// The position of the tool.
        tool: usize,
        /// The arguments.
        arguments: Vec<(String, Value)>,
    },
}

/// What a plan means.
pub enum Planned {
    /// Answer a discovery tool.
    Answer(Found),
    /// Call a tool.
    Call(nat, Seq<(Seq<char>, Json)>),
}

impl View for CallPlan {
    type V = Planned;

    open spec fn view(&self) -> Planned {
        match *self {
            CallPlan::Answer(answer) => Planned::Answer(answer@),
            CallPlan::Call { tool, arguments } => Planned::Call(tool as nat, entries(arguments@)),
        }
    }
}

/// The arguments of the tool that the arguments of a discovery tool name.
pub open spec fn inner_arguments(args: Seq<(Seq<char>, Json)>) -> Seq<(Seq<char>, Json)> {
    match lookup(args, "arguments"@) {
        Some(Json::Object(all)) => all,
        _ => Seq::empty(),
    }
}

/// What is done for a call, or the message of the fault.
pub open spec fn call_plan(
    discovery: McpDiscovery,
    name: Seq<char>,
    args: Seq<(Seq<char>, Json)>,
    tools: Seq<ResolvedTool>,
) -> Result<Planned, Seq<char>> {
    if discovery == McpDiscovery::Progressive {
        match discovered(name, args, tools) {
            Err(message) => Err(message),
            Ok(Found::Execute) => match named_tool(args, tools) {
                Err(message) => Err(message),
                Ok(i) => Ok(Planned::Call(i, tabled(inner_arguments(args)))),
            },
            Ok(answer) => Ok(Planned::Answer(answer)),
        }
    } else {
        match tool_from(tools, name, 0) {
            None => Err("Unknown tool: "@ + name),
            Some(i) => Ok(Planned::Call(i, tabled(args))),
        }
    }
}

/// Plans what is done for a call, or gives the message of the fault.
pub fn plan_call(
    discovery: McpDiscovery,
    name: &str,
    args: &Vec<(String, Value)>,
    tools: &Vec<ResolvedTool>,
) -> (r: Result<CallPlan, String>)
    ensures
        call_plan(discovery, name@, entries(args@), tools@) == (match r {
            Ok(plan) => Ok(plan@),
            Err(message) => Err(message@),
        }),
{
    broadcast use lemma_object_view;

    if discovery == McpDiscovery::Progressive {
        match discovery_result(name, args, tools) {
            Err(message) => Err(message),
            Ok(Discovery::Execute) => match find_named_tool(args, tools) {
                Err(message) => Err(message),
                Ok(tool) => {
                    let arguments = match get(args, "arguments") {
                        Some(Value::Object(all)) => to_table(all),
                        _ => {
                            let none: Vec<(String, Value)> = Vec::new();
                            assert(entries(none@) =~= Seq::empty());
                            none
                        },
                    };
                    Ok(CallPlan::Call { tool, arguments })
                },
            },
            Ok(answer) => Ok(CallPlan::Answer(answer)),
        }
    } else {
        match find_tool(tools, name) {
            None => Err(cat("Unknown tool: ", name)),
            Some(tool) => Ok(CallPlan::Call { tool, arguments: to_table(args) }),
        }
    }
}

// ---------------------------------------------------------------------------
// Laws
// ---------------------------------------------------------------------------

/// Progressive discovery calls a tool that changes nothing through `call_read_tool`
/// only, and any other through `call_write_tool` only.
pub proof fn law_tools_are_called_by_their_kind(
    name: Seq<char>,
    args: Seq<(Seq<char>, Json)>,
    tools: Seq<ResolvedTool>,
)
    requires
        discovered(name, args, tools) == Ok::<Found, Seq<char>>(Found::Execute),
    ensures
        ({
            let i = named_tool(args, tools)->Ok_0;
            &&& i < tools.len()
            &&& is_read_only(tools[i as int]) ==> name == "call_read_tool"@
            &&& !is_read_only(tools[i as int]) ==> name == "call_write_tool"@
        }),
{
    if let Some(text) = text_at(args, "name"@) {
        lemma_tool_from(tools, text, 0);
    }
    reveal_strlit("call_read_tool");
    reveal_strlit("call_write_tool");
    assert("call_read_tool"@.len() != "call_write_tool"@.len());
}

/// A page holds no more than the limit, and the page that begins where it ends holds
/// what comes next: together they are the longer page.
pub proof fn law_pages_follow_each_other(
    all: Seq<(Seq<char>, Json)>,
    offset: nat,
    a: nat,
    b: nat,
)
    ensures
        page(all, offset, a).len() <= a,
        page(all, offset, a) + page(all, offset + a, b) == page(all, offset, a + b),
{
    assert(page(all, offset, a) + page(all, offset + a, b) =~= page(all, offset, a + b));
}

/// A search looks at each tool on its own: of two lists it finds what it finds in the
/// first and then what it finds in the second, and of one tool that tool exactly where
/// nothing is searched for or the text occurs in its name or its description.
pub proof fn law_searches_find_tools(
    query: Seq<char>,
    a: Seq<ResolvedTool>,
    b: Seq<ResolvedTool>,
    tool: ResolvedTool,
)
    ensures
        hits(query, a + b) == hits(query, a) + hits(query, b),
        query.len() == 0 || occurs(unicode_lowercase(tool.name@), query) || occurs(
            unicode_lowercase(tool.description@),
            query,
        ) ==> hits(query, seq![tool]).len() == 1 && hits(query, seq![tool])[0].0 == tool.name@,
        !(query.len() == 0 || occurs(unicode_lowercase(tool.name@), query) || occurs(
            unicode_lowercase(tool.description@),
            query,
        )) ==> hits(query, seq![tool]).len() == 0,
        hits(query, seq![tool]).len() == 1 ==> {
            let shown = hits(query, seq![tool])[0].1;
            &&& field(shown, "name"@) == Some(Json::String(tool.name@))
            &&& field(shown, "description"@) == Some(Json::String(tool.description@))
            &&& field(shown, "annotations"@) == Some(hints_json(tool.annotations))
        },
    decreases b.len(),
{
    broadcast use {lemma_collected_found, lemma_nothing_collected};

    lemma_summary_keys();
    reveal_with_fuel(hits, 2);
    assert(seq![tool].drop_last() =~= Seq::empty());
    assert(hits(query, seq![tool].drop_last()) =~= Seq::empty());
    if b.len() == 0 {
        assert(a + b =~= a);
        assert(hits(query, a) + hits(query, b) =~= hits(query, a));
    } else {
        law_searches_find_tools(query, a, b.drop_last(), tool);
        assert((a + b).drop_last() =~= a + b.drop_last());
        assert((a + b).last() == b.last());
        assert(hits(query, a + b) =~= hits(query, a) + hits(query, b));
    }
}

/// The keys of a summary and of details differ.
proof fn lemma_summary_keys()
    ensures
        "name"@ != "description"@,
        "name"@ != "annotations"@,
        "name"@ != "inputSchema"@,
        "name"@ != "outputSchema"@,
        "name"@ != "instructions"@,
        "name"@ != "_meta"@,
        "description"@ != "annotations"@,
        "description"@ != "inputSchema"@,
        "description"@ != "outputSchema"@,
        "description"@ != "instructions"@,
        "description"@ != "_meta"@,
        "annotations"@ != "inputSchema"@,
        "annotations"@ != "outputSchema"@,
        "annotations"@ != "instructions"@,
        "annotations"@ != "_meta"@,
        "inputSchema"@ != "outputSchema"@,
        "inputSchema"@ != "instructions"@,
        "inputSchema"@ != "_meta"@,
        "outputSchema"@ != "instructions"@,
        "outputSchema"@ != "_meta"@,
        "instructions"@ != "_meta"@,
{
    reveal_strlit("name");
    reveal_strlit("description");
    reveal_strlit("annotations");
    reveal_strlit("inputSchema");
    reveal_strlit("outputSchema");
    reveal_strlit("instructions");
    reveal_strlit("_meta");
    assert("name"@.len() == 4);
    assert("description"@.len() == 11);
    assert("annotations"@.len() == 11);
    assert("inputSchema"@.len() == 11);
    assert("outputSchema"@.len() == 12);
    assert("instructions"@.len() == 12);
    assert("_meta"@.len() == 5);
    assert("annotations"@[0] == 'a');
    assert("description"@[0] == 'd');
    assert("inputSchema"@[0] == 'i');
    assert("instructions"@[0] == 'i');
    assert("outputSchema"@[0] == 'o');
}

/// The keys of a search differ.
proof fn lemma_search_keys()
    ensures
        "query"@ != "offset"@,
        "query"@ != "limit"@,
        "query"@ != "tools"@,
        "query"@ != "nextOffset"@,
        "offset"@ != "limit"@,
        "offset"@ != "tools"@,
        "offset"@ != "nextOffset"@,
        "limit"@ != "tools"@,
        "limit"@ != "nextOffset"@,
        "tools"@ != "nextOffset"@,
{
    reveal_strlit("query");
    reveal_strlit("offset");
    reveal_strlit("limit");
    reveal_strlit("tools");
    reveal_strlit("nextOffset");
    assert("query"@.len() == 5);
    assert("offset"@.len() == 6);
    assert("limit"@.len() == 5);
    assert("tools"@.len() == 5);
    assert("nextOffset"@.len() == 10);
    assert("limit"@[0] == 'l');
    assert("query"@[0] == 'q');
    assert("tools"@[0] == 't');
}

/// A search shows the tools it finds from the offset on and no more than the limit, in
/// the order of their names; where there are more, it tells where they begin. Without
/// an offset it begins with the first, and without a limit it shows five.
pub proof fn law_searches_are_paged(args: Seq<(Seq<char>, Json)>, tools: Seq<ResolvedTool>)
    requires
        tools.len() <= u64::MAX,
    ensures
        ({
            let asked = match lookup(args, "query"@) {
                Some(Json::String(text)) => text,
                _ => ""@,
            };
            let offset = match lookup(args, "offset"@) {
                Some(Json::Number(Number::PosInt(n))) => n as int,
                _ => 0int,
            };
            let limit = match lookup(args, "limit"@) {
                Some(Json::Number(Number::PosInt(n))) => n as int,
                _ => 5int,
            };
            let all = ordered(hits(unicode_lowercase(asked), tools));
            let result = search_result(args, tools);
            &&& all.to_multiset() == hits(unicode_lowercase(asked), tools).to_multiset()
            &&& table::in_order(all)
            &&& field(result, "tools"@) matches Some(Json::Array(shown))
            &&& shown.len() <= limit
            &&& shown.len() == limit || offset + shown.len() >= all.len()
            &&& forall|i: int|
                0 <= i < shown.len() ==> offset + i < all.len() && #[trigger] shown[i] == all[offset
                    + i].1
            &&& offset + shown.len() < all.len() ==> field(result, "nextOffset"@) == Some(
                Json::Number(Number::PosInt((offset + shown.len()) as u64)),
            )
            &&& offset + shown.len() >= all.len() ==> field(result, "nextOffset"@) == Some(
                Json::Null,
            )
        }),
{
    broadcast use {lemma_collected_found, lemma_nothing_collected};

    lemma_search_keys();
    let query = search_query(args);
    table::lemma_ordered(hits(query, tools));
}

/// The details of a tool say all that is known of it.
pub proof fn law_details_are_whole(tool: ResolvedTool)
    ensures
        ({
            let shown = details(tool);
            &&& field(shown, "name"@) == Some(Json::String(tool.name@))
            &&& field(shown, "description"@) == Some(Json::String(tool.description@))
            &&& field(shown, "inputSchema"@) == Some(Json::Object(entries(tool.input_schema@)))
            &&& field(shown, "outputSchema"@) == Some(
                match tool.output_schema {
                    Some(all) => Json::Object(entries(all@)),
                    None => Json::Null,
                },
            )
            &&& field(shown, "annotations"@) == Some(hints_json(tool.annotations))
            &&& field(shown, "instructions"@) == Some(
                match tool.instructions {
                    Some(text) => Json::String(text@),
                    None => Json::Null,
                },
            )
            &&& tool.instructions is None && tool.output_meta is None ==> field(shown, "_meta"@)
                == Some(Json::Null)
        }),
{
    broadcast use {lemma_collected_found, lemma_nothing_collected};

    lemma_summary_keys();
}

/// The names of the tools of progressive discovery differ.
proof fn lemma_tool_names()
    ensures
        "search_tools"@ != "get_tool_details"@,
        "search_tools"@ != "call_read_tool"@,
        "search_tools"@ != "call_write_tool"@,
        "get_tool_details"@ != "call_read_tool"@,
        "get_tool_details"@ != "call_write_tool"@,
        "call_read_tool"@ != "call_write_tool"@,
{
    reveal_strlit("search_tools");
    reveal_strlit("get_tool_details");
    reveal_strlit("call_read_tool");
    reveal_strlit("call_write_tool");
    assert("search_tools"@.len() == 12);
    assert("get_tool_details"@.len() == 16);
    assert("call_read_tool"@.len() == 14);
    assert("call_write_tool"@.len() == 15);
}

/// Where tools are listed directly, a call of a known name calls the first tool of that
/// name with the arguments of the call, and any other is refused.
pub proof fn law_direct_calls_call_the_tool(
    name: Seq<char>,
    args: Seq<(Seq<char>, Json)>,
    tools: Seq<ResolvedTool>,
    i: int,
    key: Seq<char>,
)
    requires
        0 <= i < tools.len(),
        tools[i].name@ == name,
        forall|j: int| 0 <= j < i ==> (#[trigger] tools[j]).name@ != name,
    ensures
        call_plan(McpDiscovery::Direct, name, args, tools) matches Ok(
            Planned::Call(called, arguments),
        ) && called == i && (forall|k: int|
            0 <= k < args.len() && (#[trigger] args[k]).0 == key && (forall|l: int|
                k < l < args.len() ==> (#[trigger] args[l]).0 != key) ==> lookup(arguments, key)
                == Some(args[k].1)) && ((forall|k: int|
            0 <= k < args.len() ==> (#[trigger] args[k]).0 != key) ==> lookup(arguments, key)
            is None),
{
    crate::mcp::server::law_names_lead_to_tools(tools, name, 0);
    crate::value::law_last_entry_is_tabled(args, key);
}

/// A call of a name that no tool has is refused, and the refusal names it.
pub proof fn law_unknown_tools_are_refused(
    name: Seq<char>,
    args: Seq<(Seq<char>, Json)>,
    tools: Seq<ResolvedTool>,
)
    requires
        forall|i: int| 0 <= i < tools.len() ==> (#[trigger] tools[i]).name@ != name,
    ensures
        call_plan(McpDiscovery::Direct, name, args, tools) == Err::<Planned, Seq<char>>(
            "Unknown tool: "@ + name,
        ),
        text_at(args, "name"@) == Some(name) ==> call_plan(
            McpDiscovery::Progressive,
            "call_read_tool"@,
            args,
            tools,
        ) == Err::<Planned, Seq<char>>("Unknown tool: "@ + name),
        text_at(args, "name"@) == Some(name) ==> call_plan(
            McpDiscovery::Progressive,
            "call_write_tool"@,
            args,
            tools,
        ) == Err::<Planned, Seq<char>>("Unknown tool: "@ + name),
        text_at(args, "name"@) == Some(name) ==> call_plan(
            McpDiscovery::Progressive,
            "get_tool_details"@,
            args,
            tools,
        ) == Err::<Planned, Seq<char>>("Unknown tool: "@ + name),
{
    lemma_tool_names();
    crate::mcp::server::law_names_lead_to_tools(tools, name, 0);
}

/// By progressive discovery a tool is called under the name that the arguments give, with
/// the arguments that they hold: one that changes nothing through `call_read_tool`, any
/// other through `call_write_tool`. Through the wrong one it is not called, and its
/// details are shown through `get_tool_details`.
pub proof fn law_progressive_calls_call_the_tool(
    args: Seq<(Seq<char>, Json)>,
    tools: Seq<ResolvedTool>,
    i: int,
)
    requires
        0 <= i < tools.len(),
        lookup(args, "name"@) == Some(Json::String(tools[i].name@)),
        forall|j: int| 0 <= j < i ==> (#[trigger] tools[j]).name@ != tools[i].name@,
    ensures
        ({
            let right = if is_read_only(tools[i]) {
                "call_read_tool"@
            } else {
                "call_write_tool"@
            };
            let wrong = if is_read_only(tools[i]) {
                "call_write_tool"@
            } else {
                "call_read_tool"@
            };
            let given = match lookup(args, "arguments"@) {
                Some(Json::Object(all)) => all,
                _ => Seq::empty(),
            };
            &&& call_plan(McpDiscovery::Progressive, right, args, tools) == Ok::<
                Planned,
                Seq<char>,
            >(Planned::Call(i as nat, tabled(given)))
            &&& call_plan(McpDiscovery::Progressive, wrong, args, tools) matches Ok(
                Planned::Answer(Found::Failed(_)),
            )
            &&& call_plan(McpDiscovery::Progressive, "get_tool_details"@, args, tools) == Ok::<
                Planned,
                Seq<char>,
            >(Planned::Answer(Found::Structured(details(tools[i]))))
            &&& call_plan(McpDiscovery::Progressive, "search_tools"@, args, tools) == Ok::<
                Planned,
                Seq<char>,
            >(Planned::Answer(Found::Structured(search_result(args, tools))))
        }),
{
    lemma_tool_names();
    crate::mcp::server::law_names_lead_to_tools(tools, tools[i].name@, 0);
}

/// Progressive discovery answers to its own four names alone.
pub proof fn law_discovery_has_four_names(
    name: Seq<char>,
    args: Seq<(Seq<char>, Json)>,
    tools: Seq<ResolvedTool>,
)
    requires
        name != "search_tools"@,
        name != "get_tool_details"@,
        name != "call_read_tool"@,
        name != "call_write_tool"@,
    ensures
        call_plan(McpDiscovery::Progressive, name, args, tools) == Err::<Planned, Seq<char>>(
            "Unknown discovery tool: "@ + name,
        ),
{
}

} // verus!
