//! The MCP servers of a package, as they are read.

use vstd::prelude::*;
use crate::address::{
    has_user, loopback_ipv4, parse_url, parsed_url, url_result, web_scheme, HostModel, UrlHost,
    UrlModel, UrlParts,
};
use crate::agent_plugin::loader::{
    canonical_directory, canonical_file, contained_directory, contained_file, error, failed,
    findings, push_diagnostic, warned, warning, AgentPluginDiagnostic, AgentPluginLoadOptions,
    AgentPluginMcpTransport, Document, Finding, Located, AGENT_PLUGIN_MCP_SCHEMA,
    AGENT_PLUGIN_SCHEMA,
};
use crate::agent_plugin::names::holds_white_space;
use crate::agent_plugin::paths::{is_within, normalize_absolute, normalized, within};
use crate::agent_plugin::servers::{header_before, is_header_before, reserved_variable};
use crate::agent_plugin_runtime::{expand, expanded};
use crate::config::{join_path, joined};
use crate::headers::{http_name, http_value, is_http_name, is_http_value};
use crate::table;
use crate::table::{inserted, keyed, lookup, mapped, text_table};
use crate::text::{
    cat, cat3, chars_of, contains_char, decimal, decimal_text, has_white_space, opt_text, same,
    same_ignoring_case, starts_with, strip_prefix, texts, trim_leading, trim_start_char,
};
use crate::value::{entries, get, lemma_array_view, lemma_object_view, text_at, values, Json, Value};

verus! {

/// Valid stdio MCP server binding.
#[derive(Debug, Clone)]
pub struct AgentPluginStdioMcpServer {
    /// Configured command token before placeholder expansion.
    pub command: String,
    /// Filesystem-resolved command path when `command` is plugin-relative.
    pub resolved_command: Option<String>,
    /// Configured argument strings before placeholder expansion.
    pub args: Vec<String>,
    /// Argument strings after single-pass plugin placeholder expansion.
    pub resolved_args: Vec<String>,
    /// Configured environment overlay before placeholder expansion.
    pub env: Vec<(String, String)>,
    /// Environment overlay after single-pass plugin placeholder expansion.
    pub resolved_env: Vec<(String, String)>,
    /// Configured working directory string, or `None` when omitted.
    pub cwd: Option<String>,
    /// Filesystem-normalized working directory after placeholder expansion.
    pub resolved_cwd: String,
}

/// Valid remote HTTP MCP server binding.
#[derive(Debug, Clone)]
pub struct AgentPluginHttpMcpServer {
    /// Absolute HTTP or HTTPS MCP endpoint URL.
    pub url: String,
    /// Fixed visible header values keyed by original header name.
    pub headers: Vec<(String, String)>,
}

/// Valid MCP server binding from `mcp.json`.
#[derive(Debug, Clone)]
pub enum AgentPluginMcpServer {
    /// Local stdio MCP server.
    Stdio(AgentPluginStdioMcpServer),
    /// Remote Streamable HTTP MCP server.
    StreamableHttp(AgentPluginHttpMcpServer),
    /// Remote legacy HTTP+SSE MCP server.
    Sse(AgentPluginHttpMcpServer),
}

/// What a stdio binding means.
pub struct StdioBinding {
    /// Command.
    pub command: Seq<char>,
    /// Resolved command.
    pub resolved_command: Option<Seq<char>>,
    /// Arguments.
    pub args: Seq<Seq<char>>,
    /// Expanded arguments.
    pub resolved_args: Seq<Seq<char>>,
    /// Environment.
    pub env: Seq<(Seq<char>, Seq<char>)>,
    /// Expanded environment.
    pub resolved_env: Seq<(Seq<char>, Seq<char>)>,
    /// Working directory.
    pub cwd: Option<Seq<char>>,
    /// Resolved working directory.
    pub resolved_cwd: Seq<char>,
}

/// What a remote binding means.
pub struct HttpBinding {
    /// URL.
    pub url: Seq<char>,
    /// Headers.
    pub headers: Seq<(Seq<char>, Seq<char>)>,
}

/// What a binding means.
pub enum Binding {
    /// Local stdio MCP server.
    Stdio(StdioBinding),
    /// Remote Streamable HTTP MCP server.
    StreamableHttp(HttpBinding),
    /// Remote legacy HTTP+SSE MCP server.
    Sse(HttpBinding),
}

impl View for AgentPluginStdioMcpServer {
    type V = StdioBinding;

    open spec fn view(&self) -> StdioBinding {
        StdioBinding {
            command: self.command@,
            resolved_command: opt_text(self.resolved_command),
            args: texts(self.args@),
            resolved_args: texts(self.resolved_args@),
            env: text_table(self.env@),
            resolved_env: text_table(self.resolved_env@),
            cwd: opt_text(self.cwd),
            resolved_cwd: self.resolved_cwd@,
        }
    }
}

impl View for AgentPluginHttpMcpServer {
    type V = HttpBinding;

    open spec fn view(&self) -> HttpBinding {
        HttpBinding { url: self.url@, headers: text_table(self.headers@) }
    }
}

impl View for AgentPluginMcpServer {
    type V = Binding;

    open spec fn view(&self) -> Binding {
        match *self {
            AgentPluginMcpServer::Stdio(s) => Binding::Stdio(s@),
            AgentPluginMcpServer::StreamableHttp(s) => Binding::StreamableHttp(s@),
            AgentPluginMcpServer::Sse(s) => Binding::Sse(s@),
        }
    }
}

/// The transport of a binding.
pub open spec fn binding_transport(b: Binding) -> AgentPluginMcpTransport {
    match b {
        Binding::Stdio(_) => AgentPluginMcpTransport::Stdio,
        Binding::StreamableHttp(_) => AgentPluginMcpTransport::StreamableHttp,
        Binding::Sse(_) => AgentPluginMcpTransport::Sse,
    }
}

/// What the file system says of the paths that a server names: that of its command
/// and that of its working directory. Of a path that is not looked up, anything may
/// be said.
#[derive(Debug, Clone)]
pub struct ServerPaths {
    /// What the path of the command leads to.
    pub command: Located,
    /// What the path of the working directory leads to.
    pub cwd: Located,
}

/// The path of a part of a server in `mcp.json`.
pub open spec fn server_place(server: Seq<char>, part: Seq<char>) -> Seq<char> {
    "mcp.json/mcpServers/"@ + server + part
}

fn place_in_server(server: &str, part: &str) -> (r: String)
    ensures
        r@ == server_place(server@, part@),
{
    cat3("mcp.json/mcpServers/", server, part)
}

fn place_of_key(server: &str, key: &str) -> (r: String)
    ensures
        r@ == server_place(server@, "/"@ + key@),
{
    place_in_server(server, cat("/", key).as_str())
}

fn place_of_part(server: &str, key: &str, part: &str) -> (r: String)
    ensures
        r@ == server_place(server@, "/"@ + key@ + "/"@ + part@),
{
    let mut out = cat3("/", key, "/");
    out.append(part);
    place_in_server(server, out.as_str())
}

// ---------------------------------------------------------------------------
// Fields
// ---------------------------------------------------------------------------

/// What is wrong with a field that must hold a text that is not empty.
pub open spec fn needed_text_fault(
    object: Seq<(Seq<char>, Json)>,
    key: Seq<char>,
    server: Seq<char>,
) -> Option<Finding> {
    match lookup(object, key) {
        Some(Json::String(s)) if s.len() > 0 => None,
        _ => Some(
            warned(
                "mcp_string_invalid"@,
                server_place(server, "/"@ + key),
                key + " must be a non-empty string"@,
            ),
        ),
    }
}

/// The texts that items hold, or what is wrong with the first that is none.
pub open spec fn items_texts(items: Seq<Json>, server: Seq<char>, key: Seq<char>) -> Result<
    Seq<Seq<char>>,
    Finding,
>
    decreases items.len(),
{
    if items.len() == 0 {
        Ok(Seq::empty())
    } else {
        match (items_texts(items.drop_last(), server, key), items.last()) {
            (Err(fault), _) => Err(fault),
            (Ok(before), Json::String(text)) => Ok(before.push(text)),
            (Ok(_), _) => Err(
                warned(
                    "mcp_array_invalid"@,
                    server_place(server, "/"@ + key + "/"@ + decimal((items.len() - 1) as nat)),
                    "array item must be a string"@,
                ),
            ),
        }
    }
}

/// The texts of a field, or what is wrong with it.
pub open spec fn field_texts(value: Option<Json>, server: Seq<char>, key: Seq<char>) -> Result<
    Seq<Seq<char>>,
    Finding,
> {
    match value {
        None => Ok(Seq::empty()),
        Some(Json::Array(items)) => items_texts(items, server, key),
        Some(_) => Err(
            warned(
                "mcp_array_invalid"@,
                server_place(server, "/"@ + key),
                "field must be an array of strings"@,
            ),
        ),
    }
}

/// The named texts that entries hold, or what is wrong with the first that is none.
pub open spec fn entries_texts(
    all: Seq<(Seq<char>, Json)>,
    server: Seq<char>,
    key: Seq<char>,
) -> Result<Seq<(Seq<char>, Seq<char>)>, Finding>
    decreases all.len(),
{
    if all.len() == 0 {
        Ok(Seq::empty())
    } else {
        match (entries_texts(all.drop_last(), server, key), all.last().1) {
            (Err(fault), _) => Err(fault),
            (Ok(before), Json::String(text)) => Ok(inserted(before, all.last().0, text)),
            (Ok(_), _) => Err(
                warned(
                    "mcp_map_invalid"@,
                    server_place(server, "/"@ + key + "/"@ + all.last().0),
                    "map value must be a string"@,
                ),
            ),
        }
    }
}

/// The named texts of a field, or what is wrong with it.
pub open spec fn field_table(value: Option<Json>, server: Seq<char>, key: Seq<char>) -> Result<
    Seq<(Seq<char>, Seq<char>)>,
    Finding,
> {
    match value {
        None => Ok(Seq::empty()),
        Some(Json::Object(all)) => entries_texts(all, server, key),
        Some(_) => Err(
            warned(
                "mcp_map_invalid"@,
                server_place(server, "/"@ + key),
                "field must be an object of strings"@,
            ),
        ),
    }
}

/// What a value that may be missing means.
pub open spec fn opt_json(value: Option<&Value>) -> Option<Json> {
    match value {
        Some(v) => Some(v@),
        None => None,
    }
}

fn json_required_string(object: &Vec<(String, Value)>, key: &str, server: &str) -> (r: Result<
    String,
    AgentPluginDiagnostic,
>)
    ensures
        match r {
            Ok(text) => needed_text_fault(entries(object@), key@, server@) is None && text_at(
                entries(object@),
                key@,
            ) == Some(text@),
            Err(d) => needed_text_fault(entries(object@), key@, server@) == Some(d@),
        },
{
    if let Some(Value::String(text)) = get(object, key) {
        if chars_of(text.as_str()).len() > 0 {
            return Ok(text.clone());
        }
    }
    Err(
        warning(
            "mcp_string_invalid",
            place_of_key(server, key),
            cat(key, " must be a non-empty string"),
        ),
    )
}

/// What is wrong with the first items is wrong with all of them.
proof fn lemma_items_fail(items: Seq<Json>, n: int, server: Seq<char>, key: Seq<char>)
    requires
        0 <= n <= items.len(),
        items_texts(items.take(n), server, key) is Err,
    ensures
        items_texts(items, server, key) == items_texts(items.take(n), server, key),
    decreases items.len(),
{
    if n == items.len() {
        assert(items.take(n) =~= items);
    } else {
        assert(items.drop_last().take(n) =~= items.take(n));
        lemma_items_fail(items.drop_last(), n, server, key);
    }
}

/// What is wrong with the first entries is wrong with all of them.
proof fn lemma_entries_fail(
    all: Seq<(Seq<char>, Json)>,
    n: int,
    server: Seq<char>,
    key: Seq<char>,
)
    requires
        0 <= n <= all.len(),
        entries_texts(all.take(n), server, key) is Err,
    ensures
        entries_texts(all, server, key) == entries_texts(all.take(n), server, key),
    decreases all.len(),
{
    if n == all.len() {
        assert(all.take(n) =~= all);
    } else {
        assert(all.drop_last().take(n) =~= all.take(n));
        lemma_entries_fail(all.drop_last(), n, server, key);
    }
}

fn json_string_array(value: Option<&Value>, server: &str, key: &str) -> (r: Result<
    Vec<String>,
    AgentPluginDiagnostic,
>)
    ensures
        field_texts(opt_json(value), server@, key@) == (match r {
            Ok(list) => Ok(texts(list@)),
            Err(d) => Err(d@),
        }),
{
    broadcast use lemma_array_view;

    let mut out: Vec<String> = Vec::new();
    assert(texts(out@) =~= Seq::empty());
    let items = match value {
        None => {
            return Ok(out);
        },
        Some(Value::Array(items)) => items,
        Some(_) => {
            return Err(
                warning(
                    "mcp_array_invalid",
                    place_of_key(server, key),
                    "field must be an array of strings".to_string(),
                ),
            );
        },
    };
    let ghost all = values(items@);
    let mut i: usize = 0;
    assert(all.take(0) =~= Seq::empty());
    while i < items.len()
        invariant
            i <= items.len(),
            all == values(items@),
            opt_json(value) == Some(Json::Array(all)),
            items_texts(all.take(i as int), server@, key@) == Ok::<_, Finding>(texts(out@)),
        decreases items.len() - i,
    {
        assert(all.take(i + 1).drop_last() =~= all.take(i as int));
        assert(all.take(i + 1).last() == items@[i as int]@);
        if let Value::String(text) = &items[i] {
            let ghost was = texts(out@);
            out.push(text.clone());
            assert(texts(out@) =~= was.push(text@));
        } else {
            assert(usize::MAX <= u64::MAX);
            proof {
                lemma_items_fail(all, i + 1, server@, key@);
            }
            return Err(
                warning(
                    "mcp_array_invalid",
                    place_of_part(server, key, decimal_text(i as u64).as_str()),
                    "array item must be a string".to_string(),
                ),
            );
        }
        i += 1;
    }
    assert(all.take(all.len() as int) =~= all);
    Ok(out)
}

fn json_string_map(value: Option<&Value>, server: &str, key: &str) -> (r: Result<
    Vec<(String, String)>,
    AgentPluginDiagnostic,
>)
    ensures
        field_table(opt_json(value), server@, key@) == (match r {
            Ok(table) => Ok(text_table(table@)),
            Err(d) => Err(d@),
        }),
{
    broadcast use lemma_object_view;

    let mut out: Vec<(String, String)> = Vec::new();
    assert(text_table(out@) =~= Seq::empty());
    let fields = match value {
        None => {
            return Ok(out);
        },
        Some(Value::Object(fields)) => fields,
        Some(_) => {
            return Err(
                warning(
                    "mcp_map_invalid",
                    place_of_key(server, key),
                    "field must be an object of strings".to_string(),
                ),
            );
        },
    };
    let ghost all = entries(fields@);
    let mut i: usize = 0;
    assert(all.take(0) =~= Seq::empty());
    while i < fields.len()
        invariant
            i <= fields@.len(),
            all == entries(fields@),
            opt_json(value) == Some(Json::Object(all)),
            entries_texts(all.take(i as int), server@, key@) == Ok::<_, Finding>(
                text_table(out@),
            ),
        decreases fields.len() - i,
    {
        assert(all.take(i + 1).drop_last() =~= all.take(i as int));
        assert(all.take(i + 1).last() == (fields@[i as int].0@, fields@[i as int].1@));
        if let Value::String(text) = &fields[i].1 {
            table::insert_text(&mut out, fields[i].0.clone(), text.clone());
        } else {
            proof {
                lemma_entries_fail(all, i + 1, server@, key@);
            }
            return Err(
                warning(
                    "mcp_map_invalid",
                    place_of_part(server, key, fields[i].0.as_str()),
                    "map value must be a string".to_string(),
                ),
            );
        }
        i += 1;
    }
    assert(all.take(all.len() as int) =~= all);
    Ok(out)
}

// ---------------------------------------------------------------------------
// Stdio servers
// ---------------------------------------------------------------------------

/// The path to look up for a command, where it is relative to the package.
pub open spec fn command_path(root: Seq<char>, command: Seq<char>) -> Option<Seq<char>> {
    if "./"@.is_prefix_of(command) {
        Some(joined(root, command.skip("./"@.len() as int)))
    } else {
        None
    }
}

/// The path to look up for a working directory, where it is in the package.
pub open spec fn cwd_path(root: Seq<char>, cwd: Seq<char>) -> Option<Seq<char>> {
    if "./"@.is_prefix_of(cwd) {
        Some(joined(root, cwd.skip("./"@.len() as int)))
    } else if cwd == "${PLUGIN_ROOT}"@ || "${PLUGIN_ROOT}/"@.is_prefix_of(cwd) {
        Some(joined(root, trim_start_char(cwd.skip("${PLUGIN_ROOT}"@.len() as int), '/')))
    } else {
        None
    }
}

/// Gives the path to look up for a command.
pub fn path_of_command(root: &str, command: &str) -> (r: Option<String>)
    ensures
        opt_text(r) == command_path(root@, command@),
{
    match strip_prefix(command, "./") {
        Some(rest) => Some(join_path(root, rest.as_str())),
        None => None,
    }
}

fn behind_root(cwd: &str) -> (r: Option<String>)
    ensures
        opt_text(r) == (if cwd@ == "${PLUGIN_ROOT}"@ || "${PLUGIN_ROOT}/"@.is_prefix_of(cwd@) {
            Some(trim_start_char(cwd@.skip("${PLUGIN_ROOT}"@.len() as int), '/'))
        } else {
            None
        }),
{
    if same(cwd, "${PLUGIN_ROOT}") || starts_with(cwd, "${PLUGIN_ROOT}/") {
        proof {
            reveal_strlit("${PLUGIN_ROOT}");
            reveal_strlit("${PLUGIN_ROOT}/");
            assert("${PLUGIN_ROOT}"@ =~= "${PLUGIN_ROOT}/"@.take(14));
            if "${PLUGIN_ROOT}/"@.is_prefix_of(cwd@) {
                assert(cwd@.subrange(0, 14) =~= cwd@.subrange(0, 15).take(14));
            } else {
                assert(cwd@ =~= cwd@.subrange(0, 14));
            }
            assert("${PLUGIN_ROOT}"@.is_prefix_of(cwd@));
        }
        match strip_prefix(cwd, "${PLUGIN_ROOT}") {
            Some(rest) => Some(trim_leading(rest.as_str(), '/')),
            None => None,
        }
    } else {
        None
    }
}

fn behind_data(cwd: &str) -> (r: Option<String>)
    ensures
        opt_text(r) == (if cwd@ == "${PLUGIN_DATA}"@ || "${PLUGIN_DATA}/"@.is_prefix_of(cwd@) {
            Some(trim_start_char(cwd@.skip("${PLUGIN_DATA}"@.len() as int), '/'))
        } else {
            None
        }),
{
    if same(cwd, "${PLUGIN_DATA}") || starts_with(cwd, "${PLUGIN_DATA}/") {
        proof {
            reveal_strlit("${PLUGIN_DATA}");
            reveal_strlit("${PLUGIN_DATA}/");
            assert("${PLUGIN_DATA}"@ =~= "${PLUGIN_DATA}/"@.take(14));
            if "${PLUGIN_DATA}/"@.is_prefix_of(cwd@) {
                assert(cwd@.subrange(0, 14) =~= cwd@.subrange(0, 15).take(14));
            } else {
                assert(cwd@ =~= cwd@.subrange(0, 14));
            }
            assert("${PLUGIN_DATA}"@.is_prefix_of(cwd@));
        }
        match strip_prefix(cwd, "${PLUGIN_DATA}") {
            Some(rest) => Some(trim_leading(rest.as_str(), '/')),
            None => None,
        }
    } else {
        None
    }
}

/// Gives the path to look up for a working directory.
pub fn path_of_cwd(root: &str, cwd: &str) -> (r: Option<String>)
    ensures
        opt_text(r) == cwd_path(root@, cwd@),
{
    if let Some(rest) = strip_prefix(cwd, "./") {
        return Some(join_path(root, rest.as_str()));
    }
    match behind_root(cwd) {
        Some(rest) => Some(join_path(root, rest.as_str())),
        None => None,
    }
}

/// The finding on a command.
pub open spec fn command_finding(server: Seq<char>, message: Seq<char>) -> Finding {
    warned("mcp_command_invalid"@, server_place(server, "/"@ + "command"@), message)
}

/// The file that a command leads to, where it is relative to the package, or what is
/// wrong with the command.
pub open spec fn command_result(
    root: Seq<char>,
    server: Seq<char>,
    command: Seq<char>,
    located: Located,
) -> Result<Option<Seq<char>>, Finding> {
    if command.len() == 0 || holds_white_space(command) {
        Err(command_finding(server, "command must be one executable token"@))
    } else if "./"@.is_prefix_of(command) {
        if command.skip("./"@.len() as int).len() == 0 {
            Err(command_finding(server, "plugin-relative command must name a file"@))
        } else {
            match contained_file(root, located) {
                Ok(path) => Ok(Some(path)),
                Err(message) => Err(command_finding(server, message)),
            }
        }
    } else if command.contains('/') || command.contains('\\') || command == "."@ || command
        == ".."@ {
        Err(command_finding(server, "bare command must not contain path separators"@))
    } else {
        Ok(None)
    }
}

fn bad_command(server: &str, message: String) -> (r: AgentPluginDiagnostic)
    ensures
        r@ == command_finding(server@, message@),
{
    warning("mcp_command_invalid", place_of_key(server, "command"), message)
}

/// Checks a command. `located` is what the path of a command that is relative to the
/// package leads to.
pub fn validate_command(root: &str, server: &str, command: &str, located: &Located) -> (r: Result<
    Option<String>,
    AgentPluginDiagnostic,
>)
    ensures
        command_result(root@, server@, command@, *located) == (match r {
            Ok(path) => Ok(opt_text(path)),
            Err(d) => Err(d@),
        }),
{
    if chars_of(command).len() == 0 || has_white_space(command) {
        return Err(bad_command(server, "command must be one executable token".to_string()));
    }
    if let Some(rest) = strip_prefix(command, "./") {
        if chars_of(rest.as_str()).len() == 0 {
            return Err(
                bad_command(server, "plugin-relative command must name a file".to_string()),
            );
        }
        return match canonical_file(root, located) {
            Ok(path) => Ok(Some(path)),
            Err(message) => Err(bad_command(server, message)),
        };
    }
    if contains_char(command, '/') || contains_char(command, '\\') || same(command, ".") || same(
        command,
        "..",
    ) {
        return Err(
            bad_command(server, "bare command must not contain path separators".to_string()),
        );
    }
    Ok(None)
}

/// The finding on a working directory.
pub open spec fn cwd_finding(server: Seq<char>, message: Seq<char>) -> Finding {
    warned("mcp_cwd_invalid"@, server_place(server, "/"@ + "cwd"@), message)
}

/// The working directory in the package that a path leads to.
pub open spec fn located_cwd(root: Seq<char>, server: Seq<char>, located: Located) -> Result<
    Seq<char>,
    Finding,
> {
    match located {
        Located::Missing(message) => Err(cwd_finding(server, message@)),
        _ => match contained_directory(root, located) {
            Some(path) => Ok(path),
            None => Err(
                cwd_finding(server, "cwd must be contained in PLUGIN_ROOT or PLUGIN_DATA"@),
            ),
        },
    }
}

/// The directory that a working directory means, or what is wrong with it.
pub open spec fn cwd_result(
    root: Seq<char>,
    data: Seq<char>,
    server: Seq<char>,
    cwd: Seq<char>,
    located: Located,
) -> Result<Seq<char>, Finding> {
    if cwd_path(root, cwd) is Some {
        located_cwd(root, server, located)
    } else if cwd == "${PLUGIN_DATA}"@ || "${PLUGIN_DATA}/"@.is_prefix_of(cwd) {
        let path = normalized(
            joined(data, trim_start_char(cwd.skip("${PLUGIN_DATA}"@.len() as int), '/')),
        );
        if within(path, data) {
            Ok(path)
        } else {
            Err(cwd_finding(server, "cwd must be contained in PLUGIN_ROOT or PLUGIN_DATA"@))
        }
    } else {
        Err(cwd_finding(server, "cwd must be contained in PLUGIN_ROOT or PLUGIN_DATA"@))
    }
}

fn bad_cwd(server: &str, message: String) -> (r: AgentPluginDiagnostic)
    ensures
        r@ == cwd_finding(server@, message@),
{
    warning("mcp_cwd_invalid", place_of_key(server, "cwd"), message)
}

/// Gives the directory that a working directory means. `located` is what the path of
/// a directory in the package leads to.
pub fn resolve_cwd(
    root: &str,
    data_root: &str,
    server: &str,
    cwd: &str,
    located: &Located,
) -> (r: Result<String, AgentPluginDiagnostic>)
    ensures
        cwd_result(root@, data_root@, server@, cwd@, *located) == (match r {
            Ok(path) => Ok(path@),
            Err(d) => Err(d@),
        }),
{
    if path_of_cwd(root, cwd).is_some() {
        if let Located::Missing(message) = located {
            return Err(bad_cwd(server, message.clone()));
        }
        return match canonical_directory(root, located) {
            Some(path) => Ok(path),
            None => Err(
                bad_cwd(
                    server,
                    "cwd must be contained in PLUGIN_ROOT or PLUGIN_DATA".to_string(),
                ),
            ),
        };
    }
    if let Some(rest) = behind_data(cwd) {
        let path = normalize_absolute(join_path(data_root, rest.as_str()).as_str());
        if is_within(path.as_str(), data_root) {
            return Ok(path);
        }
    }
    Err(bad_cwd(server, "cwd must be contained in PLUGIN_ROOT or PLUGIN_DATA".to_string()))
}

/// The first key that no stdio server has, from one of them on.
pub open spec fn strange_stdio_key(object: Seq<(Seq<char>, Json)>, from: nat) -> Option<Seq<char>>
    decreases object.len() - from,
{
    if from >= object.len() {
        None
    } else {
        let key = object[from as int].0;
        if key == "type"@ || key == "command"@ || key == "args"@ || key == "env"@ || key
            == "cwd"@ {
            strange_stdio_key(object, from + 1)
        } else {
            Some(key)
        }
    }
}

/// The first variable that the host sets, from one of them on.
pub open spec fn reserved_key(env: Seq<(Seq<char>, Seq<char>)>, from: nat) -> Option<Seq<char>>
    decreases env.len() - from,
{
    if from >= env.len() {
        None
    } else if reserved_variable(env[from as int].0) {
        Some(env[from as int].0)
    } else {
        reserved_key(env, from + 1)
    }
}

/// The texts with their placeholders replaced.
pub open spec fn all_expanded(v: Seq<Seq<char>>, root: Seq<char>, data: Seq<char>) -> Seq<
    Seq<char>,
> {
    v.map_values(|s: Seq<char>| expanded(s, root, data))
}

/// The named texts with their placeholders replaced.
pub open spec fn table_expanded(
    v: Seq<(Seq<char>, Seq<char>)>,
    root: Seq<char>,
    data: Seq<char>,
) -> Seq<(Seq<char>, Seq<char>)> {
    v.map_values(|e: (Seq<char>, Seq<char>)| (e.0, expanded(e.1, root, data)))
}

/// The stdio server that an object binds, or what is wrong with it. `data` is the
/// normal path of the data directory.
pub open spec fn stdio_result(
    server: Seq<char>,
    object: Seq<(Seq<char>, Json)>,
    root: Seq<char>,
    data: Seq<char>,
    paths: ServerPaths,
) -> Result<StdioBinding, Finding> {
    let command = text_at(object, "command"@)->Some_0;
    let args = field_texts(lookup(object, "args"@), server, "args"@);
    let env = field_table(lookup(object, "env"@), server, "env"@);
    let resolved = command_result(root, server, command, paths.command);
    if strange_stdio_key(object, 0) is Some {
        Err(
            warned(
                "mcp_server_unknown_field"@,
                server_place(server, "/"@ + strange_stdio_key(object, 0)->Some_0),
                "unknown stdio server field"@,
            ),
        )
    } else if needed_text_fault(object, "command"@, server) is Some {
        Err(needed_text_fault(object, "command"@, server)->Some_0)
    } else if resolved is Err {
        Err(resolved->Err_0)
    } else if args is Err {
        Err(args->Err_0)
    } else if env is Err {
        Err(env->Err_0)
    } else if reserved_key(env->Ok_0, 0) is Some {
        Err(
            warned(
                "mcp_env_reserved"@,
                server_place(server, "/"@ + "env"@ + "/"@ + reserved_key(env->Ok_0, 0)->Some_0),
                "PLUGIN_ROOT and PLUGIN_DATA are reserved"@,
            ),
        )
    } else if lookup(object, "cwd"@) is Some && !(lookup(object, "cwd"@)->Some_0 is String) {
        Err(cwd_finding(server, "cwd must be a string"@))
    } else {
        let cwd = text_at(object, "cwd"@);
        let place = match cwd {
            Some(text) => cwd_result(root, data, server, text, paths.cwd),
            None => Ok(root),
        };
        match place {
            Err(fault) => Err(fault),
            Ok(path) => Ok(
                StdioBinding {
                    command,
                    resolved_command: resolved->Ok_0,
                    args: args->Ok_0,
                    resolved_args: all_expanded(args->Ok_0, root, data),
                    env: env->Ok_0,
                    resolved_env: table_expanded(env->Ok_0, root, data),
                    cwd,
                    resolved_cwd: path,
                },
            ),
        }
    }
}

fn find_strange_stdio_key(object: &Vec<(String, Value)>) -> (r: Option<String>)
    ensures
        opt_text(r) == strange_stdio_key(entries(object@), 0),
{
    let ghost all = entries(object@);
    let mut i: usize = 0;
    while i < object.len()
        invariant
            i <= object@.len(),
            all == entries(object@),
            strange_stdio_key(all, i as nat) == strange_stdio_key(all, 0),
        decreases object.len() - i,
    {
        assert(all[i as int].0 == object@[i as int].0@);
        let key = object[i].0.as_str();
        if !(same(key, "type") || same(key, "command") || same(key, "args") || same(key, "env")
            || same(key, "cwd")) {
            return Some(object[i].0.clone());
        }
        i += 1;
    }
    None
}

fn find_reserved_key(env: &Vec<(String, String)>) -> (r: Option<String>)
    ensures
        opt_text(r) == reserved_key(text_table(env@), 0),
{
    let ghost all = text_table(env@);
    let mut i: usize = 0;
    while i < env.len()
        invariant
            i <= env@.len(),
            all == text_table(env@),
            reserved_key(all, i as nat) == reserved_key(all, 0),
        decreases env.len() - i,
    {
        assert(all[i as int].0 == env@[i as int].0@);
        if same_ignoring_case(env[i].0.as_str(), "PLUGIN_ROOT") || same_ignoring_case(
            env[i].0.as_str(),
            "PLUGIN_DATA",
        ) {
            return Some(env[i].0.clone());
        }
        i += 1;
    }
    None
}

/// Replaces the placeholders of texts.
pub fn expand_all(v: &Vec<String>, root: &str, data: &str) -> (r: Vec<String>)
    ensures
        texts(r@) == all_expanded(texts(v@), root@, data@),
{
    let ghost want = all_expanded(texts(v@), root@, data@);
    let mut out: Vec<String> = Vec::new();
    let mut i: usize = 0;
    assert(texts(out@) =~= want.take(0));
    while i < v.len()
        invariant
            i <= v@.len(),
            want == all_expanded(texts(v@), root@, data@),
            texts(out@) == want.take(i as int),
        decreases v.len() - i,
    {
        let ghost was = texts(out@);
        out.push(expand(v[i].as_str(), root, data));
        assert(texts(out@) =~= was.push(want[i as int]));
        assert(want.take(i + 1) =~= want.take(i as int).push(want[i as int]));
        i += 1;
    }
    assert(want.take(want.len() as int) =~= want);
    out
}

fn expand_table(v: &Vec<(String, String)>, root: &str, data: &str) -> (r: Vec<(String, String)>)
    ensures
        text_table(r@) == table_expanded(text_table(v@), root@, data@),
{
    let ghost want = table_expanded(text_table(v@), root@, data@);
    let mut out: Vec<(String, String)> = Vec::new();
    let mut i: usize = 0;
    assert(text_table(out@) =~= want.take(0));
    while i < v.len()
        invariant
            i <= v@.len(),
            want == table_expanded(text_table(v@), root@, data@),
            text_table(out@) == want.take(i as int),
        decreases v.len() - i,
    {
        let ghost was = text_table(out@);
        out.push((v[i].0.clone(), expand(v[i].1.as_str(), root, data)));
        assert(text_table(out@) =~= was.push(want[i as int]));
        assert(want.take(i + 1) =~= want.take(i as int).push(want[i as int]));
        i += 1;
    }
    assert(want.take(want.len() as int) =~= want);
    out
}

/// Reads a stdio server. `data_root` is the normal path of the data directory.
pub fn parse_stdio_server(
    name: &str,
    object: &Vec<(String, Value)>,
    root: &str,
    data_root: &str,
    paths: &ServerPaths,
) -> (r: Result<AgentPluginStdioMcpServer, AgentPluginDiagnostic>)
    ensures
        stdio_result(name@, entries(object@), root@, data_root@, *paths) == (match r {
            Ok(server) => Ok(server@),
            Err(d) => Err(d@),
        }),
{
    if let Some(key) = find_strange_stdio_key(object) {
        return Err(
            warning(
                "mcp_server_unknown_field",
                place_of_key(name, key.as_str()),
                "unknown stdio server field".to_string(),
            ),
        );
    }
    let command = match json_required_string(object, "command", name) {
        Ok(text) => text,
        Err(d) => {
            return Err(d);
        },
    };
    let resolved_command = match validate_command(root, name, command.as_str(), &paths.command) {
        Ok(path) => path,
        Err(d) => {
            return Err(d);
        },
    };
    let args = match json_string_array(get(object, "args"), name, "args") {
        Ok(list) => list,
        Err(d) => {
            return Err(d);
        },
    };
    let env = match json_string_map(get(object, "env"), name, "env") {
        Ok(table) => table,
        Err(d) => {
            return Err(d);
        },
    };
    if let Some(key) = find_reserved_key(&env) {
        return Err(
            warning(
                "mcp_env_reserved",
                place_of_part(name, "env", key.as_str()),
                "PLUGIN_ROOT and PLUGIN_DATA are reserved".to_string(),
            ),
        );
    }
    let cwd = match get(object, "cwd") {
        Some(Value::String(text)) => Some(text.clone()),
        Some(_) => {
            return Err(bad_cwd(name, "cwd must be a string".to_string()));
        },
        None => None,
    };
    let resolved_cwd = match &cwd {
        Some(text) => match resolve_cwd(root, data_root, name, text.as_str(), &paths.cwd) {
            Ok(path) => path,
            Err(d) => {
                return Err(d);
            },
        },
        None => root.to_string(),
    };
    let resolved_args = expand_all(&args, root, data_root);
    let resolved_env = expand_table(&env, root, data_root);
    Ok(
        AgentPluginStdioMcpServer {
            command,
            resolved_command,
            args,
            resolved_args,
            env,
            resolved_env,
            cwd,
            resolved_cwd,
        },
    )
}

// ---------------------------------------------------------------------------
// Remote servers
// ---------------------------------------------------------------------------

/// Whether a URL leads to the machine itself: to `localhost`, or to an IPv4 address
/// of the machine.
pub open spec fn leads_home(url: UrlModel) -> bool {
    ||| url.host_text == Some("localhost"@)
    ||| (url.host matches Some(HostModel::Ipv4(n)) && loopback_ipv4(n))
}

/// What is wrong with the URL of a server, given its parts or the text of the error.
pub open spec fn url_finding(server: Seq<char>, read: Result<UrlModel, Seq<char>>) -> Option<
    Finding,
> {
    match read {
        Err(message) => Some(
            warned("mcp_url_invalid"@, server_place(server, "/"@ + "url"@), message),
        ),
        Ok(url) => if !web_scheme(url.scheme) || url.cannot_be_a_base || has_user(url)
            || url.fragment is Some {
            Some(
                warned(
                    "mcp_url_invalid"@,
                    server_place(server, "/"@ + "url"@),
                    "url must be absolute HTTP(S), without userinfo or fragment"@,
                ),
            )
        } else if url.scheme == "http"@ && !leads_home(url) {
            Some(
                warned(
                    "mcp_url_insecure"@,
                    server_place(server, "/"@ + "url"@),
                    "non-loopback MCP endpoints must use HTTPS"@,
                ),
            )
        } else {
            None
        },
    }
}

fn is_loopback_url(url: &UrlParts) -> (r: bool)
    ensures
        r == leads_home(url@),
{
    if let Some(host) = &url.host_text {
        if same(host.as_str(), "localhost") {
            return true;
        }
    }
    match &url.host {
        Some(UrlHost::Ipv4(n)) => *n / 0x100_0000 == 127,
        _ => false,
    }
}

/// Checks the URL of a server, given its parts or the text of the error.
pub fn check_mcp_url(server: &str, read: &Result<UrlParts, String>) -> (r: Option<
    AgentPluginDiagnostic,
>)
    ensures
        url_finding(server@, url_result(*read)) == (match r {
            Some(d) => Some(d@),
            None => None,
        }),
{
    let url = match read {
        Ok(url) => url,
        Err(message) => {
            return Some(
                warning("mcp_url_invalid", place_of_key(server, "url"), message.clone()),
            );
        },
    };
    if !url.is_web() || url.cannot_be_a_base || url.has_user() || url.fragment.is_some() {
        return Some(
            warning(
                "mcp_url_invalid",
                place_of_key(server, "url"),
                "url must be absolute HTTP(S), without userinfo or fragment".to_string(),
            ),
        );
    }
    if same(url.scheme.as_str(), "http") && !is_loopback_url(url) {
        return Some(
            warning(
                "mcp_url_insecure",
                place_of_key(server, "url"),
                "non-loopback MCP endpoints must use HTTPS".to_string(),
            ),
        );
    }
    None
}

/// Checks the URL of a server.
pub fn validate_mcp_url(server: &str, raw: &str) -> (r: Option<AgentPluginDiagnostic>)
    ensures
        url_finding(server@, parsed_url(raw@)) == (match r {
            Some(d) => Some(d@),
            None => None,
        }),
{
    let read = parse_url(raw);
    check_mcp_url(server, &read)
}

/// What is wrong with the headers of a server, from one of them on.
pub open spec fn header_finding(
    headers: Seq<(Seq<char>, Seq<char>)>,
    from: nat,
    server: Seq<char>,
) -> Option<Finding>
    decreases headers.len() - from,
{
    if from >= headers.len() {
        None
    } else {
        let (name, value) = headers[from as int];
        let place = server_place(server, "/"@ + "headers"@ + "/"@ + name);
        if header_before(headers, from, name) {
            Some(
                warned(
                    "mcp_header_duplicate"@,
                    place,
                    "duplicate header name with different casing"@,
                ),
            )
        } else if !http_name(name) {
            Some(warned("mcp_header_invalid"@, place, "invalid HTTP header name"@))
        } else if !http_value(value) {
            Some(warned("mcp_header_invalid"@, place, "invalid HTTP header value"@))
        } else {
            header_finding(headers, from + 1, server)
        }
    }
}

fn check_headers(headers: &Vec<(String, String)>, server: &str) -> (r: Option<
    AgentPluginDiagnostic,
>)
    ensures
        header_finding(text_table(headers@), 0, server@) == (match r {
            Some(d) => Some(d@),
            None => None,
        }),
{
    let ghost all = text_table(headers@);
    let mut i: usize = 0;
    while i < headers.len()
        invariant
            i <= headers@.len(),
            all == text_table(headers@),
            header_finding(all, i as nat, server@) == header_finding(all, 0, server@),
        decreases headers.len() - i,
    {
        assert(all[i as int] == (headers@[i as int].0@, headers@[i as int].1@));
        let name = headers[i].0.as_str();
        if is_header_before(headers, i, name) {
            return Some(
                warning(
                    "mcp_header_duplicate",
                    place_of_part(server, "headers", name),
                    "duplicate header name with different casing".to_string(),
                ),
            );
        }
        if !is_http_name(name) {
            return Some(
                warning(
                    "mcp_header_invalid",
                    place_of_part(server, "headers", name),
                    "invalid HTTP header name".to_string(),
                ),
            );
        }
        if !is_http_value(headers[i].1.as_str()) {
            return Some(
                warning(
                    "mcp_header_invalid",
                    place_of_part(server, "headers", name),
                    "invalid HTTP header value".to_string(),
                ),
            );
        }
        i += 1;
    }
    None
}

/// The first key that no remote server has, from one of them on.
pub open spec fn strange_http_key(object: Seq<(Seq<char>, Json)>, from: nat) -> Option<Seq<char>>
    decreases object.len() - from,
{
    if from >= object.len() {
        None
    } else {
        let key = object[from as int].0;
        if key == "type"@ || key == "url"@ || key == "headers"@ {
            strange_http_key(object, from + 1)
        } else {
            Some(key)
        }
    }
}

fn find_strange_http_key(object: &Vec<(String, Value)>) -> (r: Option<String>)
    ensures
        opt_text(r) == strange_http_key(entries(object@), 0),
{
    let ghost all = entries(object@);
    let mut i: usize = 0;
    while i < object.len()
        invariant
            i <= object@.len(),
            all == entries(object@),
            strange_http_key(all, i as nat) == strange_http_key(all, 0),
        decreases object.len() - i,
    {
        assert(all[i as int].0 == object@[i as int].0@);
        let key = object[i].0.as_str();
        if !(same(key, "type") || same(key, "url") || same(key, "headers")) {
            return Some(object[i].0.clone());
        }
        i += 1;
    }
    None
}

/// The remote server that an object binds, or what is wrong with it.
pub open spec fn http_result(server: Seq<char>, object: Seq<(Seq<char>, Json)>) -> Result<
    HttpBinding,
    Finding,
> {
    let url = text_at(object, "url"@)->Some_0;
    let headers = field_table(lookup(object, "headers"@), server, "headers"@);
    if strange_http_key(object, 0) is Some {
        Err(
            warned(
                "mcp_server_unknown_field"@,
                server_place(server, "/"@ + strange_http_key(object, 0)->Some_0),
                "unknown HTTP server field"@,
            ),
        )
    } else if needed_text_fault(object, "url"@, server) is Some {
        Err(needed_text_fault(object, "url"@, server)->Some_0)
    } else if url_finding(server, parsed_url(url)) is Some {
        Err(url_finding(server, parsed_url(url))->Some_0)
    } else if headers is Err {
        Err(headers->Err_0)
    } else if header_finding(headers->Ok_0, 0, server) is Some {
        Err(header_finding(headers->Ok_0, 0, server)->Some_0)
    } else {
        Ok(HttpBinding { url, headers: headers->Ok_0 })
    }
}

/// Reads a remote server.
pub fn parse_http_server(name: &str, object: &Vec<(String, Value)>) -> (r: Result<
    AgentPluginHttpMcpServer,
    AgentPluginDiagnostic,
>)
    ensures
        http_result(name@, entries(object@)) == (match r {
            Ok(server) => Ok(server@),
            Err(d) => Err(d@),
        }),
{
    if let Some(key) = find_strange_http_key(object) {
        return Err(
            warning(
                "mcp_server_unknown_field",
                place_of_key(name, key.as_str()),
                "unknown HTTP server field".to_string(),
            ),
        );
    }
    let url = match json_required_string(object, "url", name) {
        Ok(text) => text,
        Err(d) => {
            return Err(d);
        },
    };
    if let Some(d) = validate_mcp_url(name, url.as_str()) {
        return Err(d);
    }
    let headers = match json_string_map(get(object, "headers"), name, "headers") {
        Ok(table) => table,
        Err(d) => {
            return Err(d);
        },
    };
    if let Some(d) = check_headers(&headers, name) {
        return Err(d);
    }
    Ok(AgentPluginHttpMcpServer { url, headers })
}

// ---------------------------------------------------------------------------
// All servers
// ---------------------------------------------------------------------------

/// The server that a value binds, or what is wrong with it.
pub open spec fn binding_result(
    server: Seq<char>,
    value: Json,
    root: Seq<char>,
    data: Seq<char>,
    paths: ServerPaths,
) -> Result<Binding, Finding> {
    match value {
        Json::Object(object) => match text_at(object, "type"@) {
            None => Err(
                warned(
                    "mcp_server_type_invalid"@,
                    server_place(server, "/"@ + "type"@),
                    "server type is required"@,
                ),
            ),
            Some(kind) => if kind == "stdio"@ {
                match stdio_result(server, object, root, data, paths) {
                    Ok(b) => Ok(Binding::Stdio(b)),
                    Err(fault) => Err(fault),
                }
            } else if kind == "streamable-http"@ {
                match http_result(server, object) {
                    Ok(b) => Ok(Binding::StreamableHttp(b)),
                    Err(fault) => Err(fault),
                }
            } else if kind == "sse"@ {
                match http_result(server, object) {
                    Ok(b) => Ok(Binding::Sse(b)),
                    Err(fault) => Err(fault),
                }
            } else {
                Err(
                    warned(
                        "mcp_server_type_invalid"@,
                        server_place(server, "/"@ + "type"@),
                        "unknown server type: "@ + kind,
                    ),
                )
            },
        },
        _ => Err(
            warned(
                "mcp_server_invalid"@,
                server_place(server, Seq::empty()),
                "server entry must be an object"@,
            ),
        ),
    }
}

/// Reads a server. `data_root` is the normal path of the data directory.
pub fn parse_mcp_server(
    name: &str,
    value: &Value,
    root: &str,
    data_root: &str,
    paths: &ServerPaths,
) -> (r: Result<AgentPluginMcpServer, AgentPluginDiagnostic>)
    ensures
        binding_result(name@, value@, root@, data_root@, *paths) == (match r {
            Ok(server) => Ok(server@),
            Err(d) => Err(d@),
        }),
{
    broadcast use lemma_object_view;

    let object = match value.as_object() {
        Some(object) => object,
        None => {
            let place = cat("mcp.json/mcpServers/", name);
            assert(place@ =~= server_place(name@, Seq::empty()));
            return Err(
                warning("mcp_server_invalid", place, "server entry must be an object".to_string()),
            );
        },
    };
    let kind = match get(object, "type") {
        Some(Value::String(kind)) => kind,
        _ => {
            return Err(
                warning(
                    "mcp_server_type_invalid",
                    place_of_key(name, "type"),
                    "server type is required".to_string(),
                ),
            );
        },
    };
    if same(kind.as_str(), "stdio") {
        match parse_stdio_server(name, object, root, data_root, paths) {
            Ok(server) => Ok(AgentPluginMcpServer::Stdio(server)),
            Err(d) => Err(d),
        }
    } else if same(kind.as_str(), "streamable-http") {
        match parse_http_server(name, object) {
            Ok(server) => Ok(AgentPluginMcpServer::StreamableHttp(server)),
            Err(d) => Err(d),
        }
    } else if same(kind.as_str(), "sse") {
        match parse_http_server(name, object) {
            Ok(server) => Ok(AgentPluginMcpServer::Sse(server)),
            Err(d) => Err(d),
        }
    } else {
        Err(
            warning(
                "mcp_server_type_invalid",
                place_of_key(name, "type"),
                cat("unknown server type: ", kind.as_str()),
            ),
        )
    }
}

/// The name of a transport.
pub open spec fn transport_name(t: AgentPluginMcpTransport) -> Seq<char> {
    match t {
        AgentPluginMcpTransport::Stdio => "Stdio"@,
        AgentPluginMcpTransport::StreamableHttp => "StreamableHttp"@,
        AgentPluginMcpTransport::Sse => "Sse"@,
    }
}

/// Gives the transport of a binding.
pub fn transport_kind(server: &AgentPluginMcpServer) -> (r: AgentPluginMcpTransport)
    ensures
        r == binding_transport(server@),
{
    match server {
        AgentPluginMcpServer::Stdio(_) => AgentPluginMcpTransport::Stdio,
        AgentPluginMcpServer::StreamableHttp(_) => AgentPluginMcpTransport::StreamableHttp,
        AgentPluginMcpServer::Sse(_) => AgentPluginMcpTransport::Sse,
    }
}

fn transport_text(t: AgentPluginMcpTransport) -> (r: String)
    ensures
        r@ == transport_name(t),
{
    match t {
        AgentPluginMcpTransport::Stdio => "Stdio".to_string(),
        AgentPluginMcpTransport::StreamableHttp => "StreamableHttp".to_string(),
        AgentPluginMcpTransport::Sse => "Sse".to_string(),
    }
}

/// What comes of a server: a binding of a transport that the client has, or a
/// finding.
pub open spec fn server_outcome(
    server: Seq<char>,
    value: Json,
    root: Seq<char>,
    data: Seq<char>,
    supported: Seq<AgentPluginMcpTransport>,
    paths: ServerPaths,
) -> Result<Binding, Finding> {
    match binding_result(server, value, root, data, paths) {
        Err(fault) => Err(fault),
        Ok(b) => if supported.contains(binding_transport(b)) {
            Ok(b)
        } else {
            Err(
                warned(
                    "mcp_transport_unsupported"@,
                    server_place(server, "/"@ + "type"@),
                    "transport is not supported: "@ + transport_name(binding_transport(b)),
                ),
            )
        },
    }
}

/// The bindings of the servers that can be used.
pub open spec fn bindings(
    all: Seq<(Seq<char>, Json)>,
    root: Seq<char>,
    data: Seq<char>,
    supported: Seq<AgentPluginMcpTransport>,
    paths: Seq<ServerPaths>,
) -> Seq<(Seq<char>, Binding)>
    decreases all.len(),
{
    if all.len() == 0 {
        Seq::empty()
    } else {
        let n = all.len() - 1;
        let before = bindings(all.drop_last(), root, data, supported, paths);
        match server_outcome(all[n].0, all[n].1, root, data, supported, paths[n]) {
            Ok(b) => inserted(before, all[n].0, b),
            Err(_) => before,
        }
    }
}

/// The findings on the servers that cannot be used.
pub open spec fn binding_findings(
    all: Seq<(Seq<char>, Json)>,
    root: Seq<char>,
    data: Seq<char>,
    supported: Seq<AgentPluginMcpTransport>,
    paths: Seq<ServerPaths>,
) -> Seq<Finding>
    decreases all.len(),
{
    if all.len() == 0 {
        Seq::empty()
    } else {
        let n = all.len() - 1;
        let before = binding_findings(all.drop_last(), root, data, supported, paths);
        match server_outcome(all[n].0, all[n].1, root, data, supported, paths[n]) {
            Ok(_) => before,
            Err(fault) => before.push(fault),
        }
    }
}

/// The servers that a document lists, or what is wrong with the document.
pub open spec fn listed_servers(document: Option<Document>, plugin_schema: Seq<char>) -> Result<
    Seq<(Seq<char>, Json)>,
    Finding,
> {
    match document {
        None => Ok(Seq::empty()),
        Some(Document::Unlocated(message)) => Err(
            failed("mcp_location_invalid"@, "mcp.json"@, message@),
        ),
        Some(Document::Unreadable(message)) => Err(failed("mcp_read_failed"@, "mcp.json"@, message@)),
        Some(Document::Malformed(message)) => Err(failed("mcp_json_invalid"@, "mcp.json"@, message@)),
        Some(Document::Parsed(value)) => match value@ {
            Json::Object(object) => if object.len() != 2 || lookup(object, "$schema"@) is None
                || lookup(object, "mcpServers"@) is None {
                Err(
                    failed(
                        "mcp_top_level_invalid"@,
                        "mcp.json"@,
                        "mcp.json must contain exactly $schema and mcpServers"@,
                    ),
                )
            } else if text_at(object, "$schema"@) != Some(AGENT_PLUGIN_MCP_SCHEMA@)
                || plugin_schema != AGENT_PLUGIN_SCHEMA@ {
                Err(
                    failed(
                        "mcp_schema_unsupported"@,
                        "mcp.json/$schema"@,
                        "unsupported or mismatched MCP schema"@,
                    ),
                )
            } else {
                match lookup(object, "mcpServers"@) {
                    Some(Json::Object(all)) => Ok(all),
                    _ => Err(
                        failed(
                            "mcp_servers_invalid"@,
                            "mcp.json/mcpServers"@,
                            "mcpServers must be an object"@,
                        ),
                    ),
                }
            },
            _ => Err(
                failed("mcp_not_object"@, "mcp.json"@, "mcp.json must be an object"@),
            ),
        },
    }
}

/// Gives the servers that a document lists, in their order.
pub fn list_servers(document: &Option<Document>, plugin_schema: &str) -> (r: Result<
    Vec<(String, Value)>,
    AgentPluginDiagnostic,
>)
    ensures
        listed_servers(*document, plugin_schema@) == (match r {
            Ok(all) => Ok(entries(all@)),
            Err(d) => Err(d@),
        }),
{
    broadcast use lemma_object_view;

    let value = match document {
        None => {
            let none: Vec<(String, Value)> = Vec::new();
            assert(entries(none@) =~= Seq::empty());
            return Ok(none);
        },
        Some(Document::Unlocated(message)) => {
            return Err(error("mcp_location_invalid", "mcp.json".to_string(), message.clone()));
        },
        Some(Document::Unreadable(message)) => {
            return Err(error("mcp_read_failed", "mcp.json".to_string(), message.clone()));
        },
        Some(Document::Malformed(message)) => {
            return Err(error("mcp_json_invalid", "mcp.json".to_string(), message.clone()));
        },
        Some(Document::Parsed(value)) => value,
    };
    let object = match value.as_object() {
        Some(object) => object,
        None => {
            return Err(
                error(
                    "mcp_not_object",
                    "mcp.json".to_string(),
                    "mcp.json must be an object".to_string(),
                ),
            );
        },
    };
    if object.len() != 2 || get(object, "$schema").is_none() || get(
        object,
        "mcpServers",
    ).is_none() {
        return Err(
            error(
                "mcp_top_level_invalid",
                "mcp.json".to_string(),
                "mcp.json must contain exactly $schema and mcpServers".to_string(),
            ),
        );
    }
    let known = match get(object, "$schema") {
        Some(Value::String(schema)) => same(schema.as_str(), AGENT_PLUGIN_MCP_SCHEMA),
        _ => false,
    };
    if !known || !same(plugin_schema, AGENT_PLUGIN_SCHEMA) {
        return Err(
            error(
                "mcp_schema_unsupported",
                "mcp.json/$schema".to_string(),
                "unsupported or mismatched MCP schema".to_string(),
            ),
        );
    }
    match get(object, "mcpServers") {
        Some(Value::Object(all)) => Ok(crate::value::copy_entries(all)),
        _ => Err(
            error(
                "mcp_servers_invalid",
                "mcp.json/mcpServers".to_string(),
                "mcpServers must be an object".to_string(),
            ),
        ),
    }
}

/// The paths that a server names and that are to be looked up: that of its command
/// and that of its working directory.
pub fn paths_of_server(value: &Value, root: &str) -> (r: (Option<String>, Option<String>))
    ensures
        opt_text(r.0) == (match value@ {
            Json::Object(object) => match text_at(object, "command"@) {
                Some(command) => command_path(root@, command),
                None => None,
            },
            _ => None,
        }),
        opt_text(r.1) == (match value@ {
            Json::Object(object) => match text_at(object, "cwd"@) {
                Some(cwd) => cwd_path(root@, cwd),
                None => None,
            },
            _ => None,
        }),
{
    broadcast use lemma_object_view;

    let object = match value.as_object() {
        Some(object) => object,
        None => {
            return (None, None);
        },
    };
    let command = match get(object, "command") {
        Some(Value::String(text)) => path_of_command(root, text.as_str()),
        _ => None,
    };
    let cwd = match get(object, "cwd") {
        Some(Value::String(text)) => path_of_cwd(root, text.as_str()),
        _ => None,
    };
    (command, cwd)
}

/// What named bindings mean.
pub open spec fn bindings_view(v: Seq<(String, AgentPluginMcpServer)>) -> Seq<
    (Seq<char>, Binding),
> {
    mapped(keyed(v), |s: AgentPluginMcpServer| s@)
}

/// The bindings of a package.
pub open spec fn loaded_bindings(
    document: Option<Document>,
    plugin_schema: Seq<char>,
    root: Seq<char>,
    options: AgentPluginLoadOptions,
    paths: Seq<ServerPaths>,
) -> Seq<(Seq<char>, Binding)> {
    match listed_servers(document, plugin_schema) {
        Ok(all) => bindings(
            all,
            root,
            normalized(options.plugin_data_root@),
            options.supported_mcp_transports@,
            paths,
        ),
        Err(_) => Seq::empty(),
    }
}

/// The findings on the servers of a package.
pub open spec fn servers_findings(
    document: Option<Document>,
    plugin_schema: Seq<char>,
    root: Seq<char>,
    options: AgentPluginLoadOptions,
    paths: Seq<ServerPaths>,
) -> Seq<Finding> {
    match listed_servers(document, plugin_schema) {
        Ok(all) => binding_findings(
            all,
            root,
            normalized(options.plugin_data_root@),
            options.supported_mcp_transports@,
            paths,
        ),
        Err(fault) => seq![fault],
    }
}

fn is_supported(all: &Vec<AgentPluginMcpTransport>, t: AgentPluginMcpTransport) -> (r: bool)
    ensures
        r == all@.contains(t),
{
    let mut i: usize = 0;
    while i < all.len()
        invariant
            i <= all@.len(),
            forall|k: int| 0 <= k < i ==> all@[k] != t,
        decreases all.len() - i,
    {
        if all[i] == t {
            return true;
        }
        i += 1;
    }
    false
}

fn read_server(
    name: &str,
    value: &Value,
    root: &str,
    data_root: &str,
    supported: &Vec<AgentPluginMcpTransport>,
    paths: &ServerPaths,
) -> (r: Result<AgentPluginMcpServer, AgentPluginDiagnostic>)
    ensures
        server_outcome(name@, value@, root@, data_root@, supported@, *paths) == (match r {
            Ok(server) => Ok(server@),
            Err(d) => Err(d@),
        }),
{
    match parse_mcp_server(name, value, root, data_root, paths) {
        Err(d) => Err(d),
        Ok(server) => {
            let transport = transport_kind(&server);
            if is_supported(supported, transport) {
                Ok(server)
            } else {
                Err(
                    warning(
                        "mcp_transport_unsupported",
                        place_of_key(name, "type"),
                        cat("transport is not supported: ", transport_text(transport).as_str()),
                    ),
                )
            }
        },
    }
}

/// Reads the servers of a package. Findings are added to the diagnostics. `paths`
/// are what the file system says of the paths that each server names, in the order
/// of the servers.
pub fn load_mcp_servers(
    document: &Option<Document>,
    root: &str,
    options: &AgentPluginLoadOptions,
    plugin_schema: &str,
    paths: &Vec<ServerPaths>,
    diagnostics: &mut Vec<AgentPluginDiagnostic>,
) -> (r: Vec<(String, AgentPluginMcpServer)>)
    requires
        listed_servers(*document, plugin_schema@) matches Ok(all) ==> all.len() <= paths@.len(),
    ensures
        bindings_view(r@) == loaded_bindings(
            *document,
            plugin_schema@,
            root@,
            *options,
            paths@,
        ),
        findings(final(diagnostics)@) == findings(old(diagnostics)@) + servers_findings(
            *document,
            plugin_schema@,
            root@,
            *options,
            paths@,
        ),
{
    let ghost start = findings(diagnostics@);
    let mut out: Vec<(String, AgentPluginMcpServer)> = Vec::new();
    assert(bindings_view(out@) =~= Seq::empty());
    let servers = match list_servers(document, plugin_schema) {
        Ok(servers) => servers,
        Err(d) => {
            push_diagnostic(diagnostics, d);
            assert(findings(diagnostics@) =~= start + servers_findings(
                *document,
                plugin_schema@,
                root@,
                *options,
                paths@,
            ));
            return out;
        },
    };
    let data_root = normalize_absolute(options.plugin_data_root.as_str());
    let ghost all = entries(servers@);
    let ghost data = data_root@;
    let ghost supported = options.supported_mcp_transports@;
    let mut i: usize = 0;
    assert(all.take(0) =~= Seq::empty());
    assert(findings(diagnostics@) =~= start + binding_findings(
        all.take(0),
        root@,
        data,
        supported,
        paths@,
    ));
    while i < servers.len()
        invariant
            i <= servers@.len(),
            servers@.len() <= paths@.len(),
            all == entries(servers@),
            data == data_root@,
            supported == options.supported_mcp_transports@,
            bindings_view(out@) == bindings(all.take(i as int), root@, data, supported, paths@),
            findings(diagnostics@) == start + binding_findings(
                all.take(i as int),
                root@,
                data,
                supported,
                paths@,
            ),
        decreases servers.len() - i,
    {
        let ghost now = all.take(i + 1);
        assert(now.drop_last() =~= all.take(i as int));
        assert(now[i as int] == (servers@[i as int].0@, servers@[i as int].1@));
        assert(now.len() - 1 == i);
        match read_server(
            servers[i].0.as_str(),
            &servers[i].1,
            root,
            data_root.as_str(),
            &options.supported_mcp_transports,
            &paths[i],
        ) {
            Ok(server) => {
                let ghost was = keyed(out@);
                let ghost new = server;
                table::insert(&mut out, servers[i].0.clone(), server);
                proof {
                    table::lemma_inserted_mapped(
                        was,
                        servers@[i as int].0@,
                        new,
                        |s: AgentPluginMcpServer| s@,
                    );
                }
            },
            Err(d) => {
                push_diagnostic(diagnostics, d);
            },
        }
        assert(findings(diagnostics@) =~= start + binding_findings(
            now,
            root@,
            data,
            supported,
            paths@,
        ));
        i += 1;
    }
    assert(all.take(all.len() as int) =~= all);
    out
}

// ---------------------------------------------------------------------------
// Laws
// ---------------------------------------------------------------------------

/// A remote server that is read is reached through HTTPS, or is on the machine
/// itself, and its URL carries neither user information nor a fragment.
pub proof fn law_remote_servers_are_secure(server: Seq<char>, object: Seq<(Seq<char>, Json)>)
    requires
        http_result(server, object) is Ok,
    ensures
        ({
            let binding = http_result(server, object)->Ok_0;
            &&& parsed_url(binding.url) matches Ok(url)
            &&& url.scheme == "https"@ || (url.scheme == "http"@ && leads_home(url))
            &&& !has_user(url)
            &&& url.fragment is None
        }),
{
}

/// A server that is read works in the package or in its data directory.
pub proof fn law_servers_work_inside(
    server: Seq<char>,
    object: Seq<(Seq<char>, Json)>,
    root: Seq<char>,
    data: Seq<char>,
    paths: ServerPaths,
)
    requires
        stdio_result(server, object, root, data, paths) is Ok,
    ensures
        ({
            let binding = stdio_result(server, object, root, data, paths)->Ok_0;
            &&& within(binding.resolved_cwd, root) || within(binding.resolved_cwd, data)
            &&& binding.resolved_command matches Some(path) ==> within(path, root)
        }),
{
    crate::agent_plugin::paths::law_paths_are_within_themselves(root);
}

/// A server that is read sets none of the variables that the host sets.
pub proof fn law_servers_set_no_reserved_variable(
    server: Seq<char>,
    object: Seq<(Seq<char>, Json)>,
    root: Seq<char>,
    data: Seq<char>,
    paths: ServerPaths,
    i: int,
)
    requires
        stdio_result(server, object, root, data, paths) is Ok,
        0 <= i < stdio_result(server, object, root, data, paths)->Ok_0.env.len(),
    ensures
        !reserved_variable(stdio_result(server, object, root, data, paths)->Ok_0.env[i].0),
{
    lemma_no_reserved(stdio_result(server, object, root, data, paths)->Ok_0.env, 0, i);
}

proof fn lemma_no_reserved(env: Seq<(Seq<char>, Seq<char>)>, from: nat, i: int)
    requires
        reserved_key(env, from) is None,
        from <= i < env.len(),
    ensures
        !reserved_variable(env[i].0),
    decreases i - from,
{
    if from < i {
        lemma_no_reserved(env, from + 1, i);
    }
}

/// A server that cannot be used leaves the others as they are.
pub proof fn law_servers_are_independent(
    all: Seq<(Seq<char>, Json)>,
    bad: (Seq<char>, Json),
    root: Seq<char>,
    data: Seq<char>,
    supported: Seq<AgentPluginMcpTransport>,
    paths: Seq<ServerPaths>,
)
    requires
        server_outcome(bad.0, bad.1, root, data, supported, paths[all.len() as int]) is Err,
    ensures
        bindings(all.push(bad), root, data, supported, paths) == bindings(
            all,
            root,
            data,
            supported,
            paths,
        ),
{
    assert(all.push(bad).drop_last() =~= all);
}

/// A list of texts is read exactly where all of its items are texts, and gives them in
/// order.
pub proof fn law_lists_of_texts_are_read(items: Seq<Json>, server: Seq<char>, key: Seq<char>)
    ensures
        items_texts(items, server, key) is Ok <==> forall|i: int|
            0 <= i < items.len() ==> (#[trigger] items[i]) is String,
        items_texts(items, server, key) matches Ok(all) ==> all.len() == items.len() && forall|i: int|
            0 <= i < items.len() ==> #[trigger] items[i] == Json::String(all[i]),
    decreases items.len(),
{
    if items.len() > 0 {
        let head = items.drop_last();
        law_lists_of_texts_are_read(head, server, key);
        if items_texts(items, server, key) is Ok {
            assert forall|i: int| 0 <= i < items.len() implies (#[trigger] items[i]) is String by {
                if i < head.len() {
                    assert(head[i] == items[i]);
                }
            }
            let all = items_texts(items, server, key)->Ok_0;
            assert forall|i: int| 0 <= i < items.len() implies #[trigger] items[i] == Json::String(
                all[i],
            ) by {
                if i < head.len() {
                    assert(head[i] == items[i]);
                }
            }
        } else if items_texts(head, server, key) is Err {
            let i = choose|i: int| 0 <= i < head.len() && !((#[trigger] head[i]) is String);
            assert(items[i] == head[i]);
        }
    }
}

/// A table of texts is read exactly where all of its values are texts; a key that is
/// written again counts as it was written last.
pub proof fn law_tables_of_texts_are_read(
    all: Seq<(Seq<char>, Json)>,
    server: Seq<char>,
    key: Seq<char>,
    name: Seq<char>,
    text: Seq<char>,
    other: Seq<char>,
)
    ensures
        entries_texts(all, server, key) is Ok <==> forall|i: int|
            0 <= i < all.len() ==> (#[trigger] all[i]).1 is String,
        entries_texts(all, server, key) matches Ok(before) ==> (entries_texts(
            all.push((name, Json::String(text))),
            server,
            key,
        ) matches Ok(after) && lookup(after, name) == Some(text) && (other != name ==> lookup(
            after,
            other,
        ) == lookup(before, other))),
    decreases all.len(),
{
    if all.len() > 0 {
        let head = all.drop_last();
        law_tables_of_texts_are_read(head, server, key, name, text, other);
        if entries_texts(all, server, key) is Ok {
            assert forall|i: int| 0 <= i < all.len() implies (#[trigger] all[i]).1 is String by {
                if i < head.len() {
                    assert(head[i] == all[i]);
                }
            }
        } else if entries_texts(head, server, key) is Err {
            let i = choose|i: int| 0 <= i < head.len() && !((#[trigger] head[i]).1 is String);
            assert(all[i] == head[i]);
        }
    }
    if let Ok(before) = entries_texts(all, server, key) {
        assert(all.push((name, Json::String(text))).drop_last() =~= all);
        crate::table::lemma_lookup_inserted(before, name, text, name);
        crate::table::lemma_lookup_inserted(before, name, text, other);
    }
}

/// A bare command is taken as it is; one that is relative to the plugin is the file that
/// it leads to inside it, and any other is refused.
pub proof fn law_commands_are_bare_or_inside(
    root: Seq<char>,
    server: Seq<char>,
    command: Seq<char>,
    located: Located,
)
    ensures
        command_result(root, server, command, located) == Ok::<Option<Seq<char>>, Finding>(None)
            <==> {
            &&& command.len() > 0 && !holds_white_space(command)
            &&& !"./"@.is_prefix_of(command)
            &&& !command.contains('/') && !command.contains('\\')
            &&& command != "."@ && command != ".."@
        },
        command_result(root, server, command, located) matches Ok(Some(path)) ==> "./"@.is_prefix_of(
            command,
        ) && (located matches Located::File(file) && path == file@ && within(path, root)),
        "./"@.is_prefix_of(command) && command.len() > "./"@.len() && !holds_white_space(command) ==> (
        located matches Located::File(file) ==> (within(file@, root) ==> command_result(
            root,
            server,
            command,
            located,
        ) == Ok::<Option<Seq<char>>, Finding>(Some(file@)))),
{
}

/// A stdio server is read exactly where it has no unknown field, its command, arguments,
/// variables and directory are all sound, and it sets no reserved variable.
pub proof fn law_sound_stdio_servers_are_read(
    server: Seq<char>,
    object: Seq<(Seq<char>, Json)>,
    root: Seq<char>,
    data: Seq<char>,
    paths: ServerPaths,
)
    ensures
        stdio_result(server, object, root, data, paths) is Ok <==> {
            &&& forall|i: int|
                0 <= i < object.len() ==> (#[trigger] object[i]).0 == "type"@ || object[i].0
                    == "command"@ || object[i].0 == "args"@ || object[i].0 == "env"@ || object[i].0
                    == "cwd"@
            &&& lookup(object, "command"@) matches Some(Json::String(command)) && command.len() > 0
                && command_result(root, server, command, paths.command) is Ok
            &&& field_texts(lookup(object, "args"@), server, "args"@) is Ok
            &&& field_table(lookup(object, "env"@), server, "env"@) matches Ok(env) && forall|i: int|
                0 <= i < env.len() ==> !reserved_variable((#[trigger] env[i]).0)
            &&& lookup(object, "cwd"@) matches Some(cwd) ==> (cwd matches Json::String(text)
                && cwd_result(root, data, server, text, paths.cwd) is Ok)
        },
        stdio_result(server, object, root, data, paths) matches Ok(b) ==> {
            &&& lookup(object, "command"@) == Some(Json::String(b.command))
            &&& command_result(root, server, b.command, paths.command) == Ok::<
                Option<Seq<char>>,
                Finding,
            >(b.resolved_command)
            &&& field_texts(lookup(object, "args"@), server, "args"@) == Ok::<
                Seq<Seq<char>>,
                Finding,
            >(b.args)
            &&& b.resolved_args.len() == b.args.len()
            &&& forall|i: int|
                0 <= i < b.args.len() ==> #[trigger] b.resolved_args[i] == expanded(
                    b.args[i],
                    root,
                    data,
                )
            &&& field_table(lookup(object, "env"@), server, "env"@) == Ok::<
                Seq<(Seq<char>, Seq<char>)>,
                Finding,
            >(b.env)
            &&& b.resolved_env.len() == b.env.len()
            &&& forall|i: int|
                0 <= i < b.env.len() ==> (#[trigger] b.resolved_env[i]).0 == b.env[i].0
                    && b.resolved_env[i].1 == expanded(b.env[i].1, root, data)
            &&& lookup(object, "cwd"@) is None ==> b.cwd is None && b.resolved_cwd == root
            &&& lookup(object, "cwd"@) matches Some(Json::String(text)) ==> b.cwd == Some(text)
                && cwd_result(root, data, server, text, paths.cwd) == Ok::<Seq<char>, Finding>(
                b.resolved_cwd,
            )
        },
{
    lemma_strange_stdio_key(object, 0);
    if let Ok(env) = field_table(lookup(object, "env"@), server, "env"@) {
        lemma_reserved_keys(env, 0);
    }
}

proof fn lemma_strange_stdio_key(object: Seq<(Seq<char>, Json)>, from: nat)
    ensures
        strange_stdio_key(object, from) is None <==> forall|i: int|
            from <= i < object.len() ==> (#[trigger] object[i]).0 == "type"@ || object[i].0
                == "command"@ || object[i].0 == "args"@ || object[i].0 == "env"@ || object[i].0
                == "cwd"@,
    decreases object.len() - from,
{
    if from < object.len() {
        let key = object[from as int].0;
        if key == "type"@ || key == "command"@ || key == "args"@ || key == "env"@ || key == "cwd"@ {
            lemma_strange_stdio_key(object, from + 1);
        }
    }
}

proof fn lemma_reserved_keys(env: Seq<(Seq<char>, Seq<char>)>, from: nat)
    ensures
        reserved_key(env, from) is None <==> forall|i: int|
            from <= i < env.len() ==> !reserved_variable((#[trigger] env[i]).0),
    decreases env.len() - from,
{
    if from < env.len() && !reserved_variable(env[from as int].0) {
        lemma_reserved_keys(env, from + 1);
    }
}

proof fn lemma_strange_http_key(object: Seq<(Seq<char>, Json)>, from: nat)
    ensures
        strange_http_key(object, from) is None <==> forall|i: int|
            from <= i < object.len() ==> (#[trigger] object[i]).0 == "type"@ || object[i].0
                == "url"@ || object[i].0 == "headers"@,
    decreases object.len() - from,
{
    if from < object.len() {
        let key = object[from as int].0;
        if key == "type"@ || key == "url"@ || key == "headers"@ {
            lemma_strange_http_key(object, from + 1);
        }
    }
}

proof fn lemma_header_finding(
    headers: Seq<(Seq<char>, Seq<char>)>,
    from: nat,
    server: Seq<char>,
)
    ensures
        header_finding(headers, from, server) is None <==> forall|i: int|
            from <= i < headers.len() ==> http_name((#[trigger] headers[i]).0) && http_value(
                headers[i].1,
            ) && !header_before(headers, i as nat, headers[i].0),
    decreases headers.len() - from,
{
    if from < headers.len() {
        let (name, value) = headers[from as int];
        if !header_before(headers, from, name) && http_name(name) && http_value(value) {
            lemma_header_finding(headers, from + 1, server);
        } else {
            assert(headers[from as int] == (name, value));
        }
    }
}

/// A remote server is read exactly where it has no unknown field, its address is a secure
/// one, and its headers are valid and named once.
pub proof fn law_sound_remote_servers_are_read(
    server: Seq<char>,
    object: Seq<(Seq<char>, Json)>,
)
    ensures
        http_result(server, object) is Ok <==> {
            &&& forall|i: int|
                0 <= i < object.len() ==> (#[trigger] object[i]).0 == "type"@ || object[i].0
                    == "url"@ || object[i].0 == "headers"@
            &&& lookup(object, "url"@) matches Some(Json::String(text)) && text.len() > 0 && (
            parsed_url(text) matches Ok(url) && web_scheme(url.scheme) && !url.cannot_be_a_base
                && !has_user(url) && url.fragment is None && (url.scheme != "http"@ || leads_home(
                url,
            )))
            &&& field_table(lookup(object, "headers"@), server, "headers"@) matches Ok(headers)
                && forall|i: int|
                0 <= i < headers.len() ==> http_name((#[trigger] headers[i]).0) && http_value(
                    headers[i].1,
                ) && !header_before(headers, i as nat, headers[i].0)
        },
        http_result(server, object) matches Ok(b) ==> lookup(object, "url"@) == Some(
            Json::String(b.url),
        ) && field_table(lookup(object, "headers"@), server, "headers"@) == Ok::<
            Seq<(Seq<char>, Seq<char>)>,
            Finding,
        >(b.headers),
{
    lemma_strange_http_key(object, 0);
    if let Ok(headers) = field_table(lookup(object, "headers"@), server, "headers"@) {
        lemma_header_finding(headers, 0, server);
    }
}

/// A server is of the kind that its type says, and any other type is refused.
pub proof fn law_servers_are_of_their_type(
    server: Seq<char>,
    object: Seq<(Seq<char>, Json)>,
    root: Seq<char>,
    data: Seq<char>,
    paths: ServerPaths,
)
    ensures
        ({
            let r = binding_result(server, Json::Object(object), root, data, paths);
            let kind = lookup(object, "type"@);
            &&& r matches Ok(Binding::Stdio(b)) ==> kind == Some(Json::String("stdio"@))
                && stdio_result(server, object, root, data, paths) == Ok::<StdioBinding, Finding>(b)
            &&& r matches Ok(Binding::StreamableHttp(b)) ==> kind == Some(
                Json::String("streamable-http"@),
            ) && http_result(server, object) == Ok::<HttpBinding, Finding>(b)
            &&& r matches Ok(Binding::Sse(b)) ==> kind == Some(Json::String("sse"@)) && http_result(
                server,
                object,
            ) == Ok::<HttpBinding, Finding>(b)
            &&& kind == Some(Json::String("stdio"@)) && stdio_result(
                server,
                object,
                root,
                data,
                paths,
            ) is Ok ==> r is Ok
            &&& kind == Some(Json::String("streamable-http"@)) && http_result(server, object) is Ok
                ==> r is Ok
            &&& kind == Some(Json::String("sse"@)) && http_result(server, object) is Ok ==> r is Ok
        }),
{
    lemma_type_words();
}

/// The words for the types of servers differ.
proof fn lemma_type_words()
    ensures
        "stdio"@ != "streamable-http"@,
        "stdio"@ != "sse"@,
        "streamable-http"@ != "sse"@,
{
    reveal_strlit("stdio");
    reveal_strlit("streamable-http");
    reveal_strlit("sse");
    assert("stdio"@.len() == 5);
    assert("streamable-http"@.len() == 15);
    assert("sse"@.len() == 3);
}

/// A server that is read counts exactly where its transport is supported.
pub proof fn law_only_supported_servers_count(
    server: Seq<char>,
    value: Json,
    root: Seq<char>,
    data: Seq<char>,
    supported: Seq<AgentPluginMcpTransport>,
    paths: ServerPaths,
)
    ensures
        server_outcome(server, value, root, data, supported, paths) matches Ok(b) ==> binding_result(
            server,
            value,
            root,
            data,
            paths,
        ) == Ok::<Binding, Finding>(b) && supported.contains(binding_transport(b)),
        binding_result(server, value, root, data, paths) matches Ok(b) ==> (supported.contains(
            binding_transport(b),
        ) ==> server_outcome(server, value, root, data, supported, paths) is Ok),
        server_outcome(server, value, root, data, supported, paths) matches Err(fault) ==> (
        binding_result(server, value, root, data, paths) matches Err(own) ==> fault == own),
{
}

/// A further server that counts is found under its name, and one that does not adds its
/// fault to the findings; the others stay as they are.
pub proof fn law_further_servers_are_added(
    all: Seq<(Seq<char>, Json)>,
    more: (Seq<char>, Json),
    root: Seq<char>,
    data: Seq<char>,
    supported: Seq<AgentPluginMcpTransport>,
    paths: Seq<ServerPaths>,
    other: Seq<char>,
)
    ensures
        ({
            let outcome = server_outcome(
                more.0,
                more.1,
                root,
                data,
                supported,
                paths[all.len() as int],
            );
            let before = bindings(all, root, data, supported, paths);
            let after = bindings(all.push(more), root, data, supported, paths);
            let known = binding_findings(all, root, data, supported, paths);
            let now = binding_findings(all.push(more), root, data, supported, paths);
            &&& outcome matches Ok(b) ==> lookup(after, more.0) == Some(b) && now == known
            &&& outcome matches Err(fault) ==> after == before && now == known.push(fault)
            &&& other != more.0 ==> lookup(after, other) == lookup(before, other)
        }),
{
    assert(all.push(more).drop_last() =~= all);
    let before = bindings(all, root, data, supported, paths);
    let outcome = server_outcome(
        more.0,
        more.1,
        root,
        data,
        supported,
        paths[all.len() as int],
    );
    if let Ok(b) = outcome {
        crate::table::lemma_lookup_inserted(before, more.0, b, more.0);
        crate::table::lemma_lookup_inserted(before, more.0, b, other);
    }
}

/// The servers of a file are listed exactly where it holds the two keys and no other,
/// with the schema that belongs to that of the plugin; without a file there are none.
pub proof fn law_server_files_are_read(
    object: Seq<(Seq<char>, Json)>,
    value: Value,
    plugin_schema: Seq<char>,
)
    requires
        value@ == Json::Object(object),
    ensures
        listed_servers(None, plugin_schema) == Ok::<Seq<(Seq<char>, Json)>, Finding>(Seq::empty()),
        listed_servers(Some(Document::Parsed(value)), plugin_schema) is Ok <==> {
            &&& object.len() == 2
            &&& lookup(object, "$schema"@) == Some(Json::String(AGENT_PLUGIN_MCP_SCHEMA@))
            &&& plugin_schema == AGENT_PLUGIN_SCHEMA@
            &&& lookup(object, "mcpServers"@) matches Some(servers) && servers is Object
        },
        listed_servers(Some(Document::Parsed(value)), plugin_schema) matches Ok(all) ==> lookup(
            object,
            "mcpServers"@,
        ) == Some(Json::Object(all)),
{
}

/// An address leads to this machine exactly where its host is the local one by name or a
/// number of the local network.
pub proof fn law_local_addresses_lead_home(url: UrlModel, n: u32)
    ensures
        url.host_text == Some("localhost"@) ==> leads_home(url),
        url.host_text != Some("localhost"@) && url.host == Some(HostModel::Ipv4(n)) ==> (leads_home(
            url,
        ) <==> 0x7F00_0000 <= n <= 0x7FFF_FFFF),
        url.host_text != Some("localhost"@) && !(url.host matches Some(HostModel::Ipv4(_)))
            ==> !leads_home(url),
{
}

/// A directory of a server that begins at the plugin or relative to it is looked for below
/// the root, and a relative command too; a bare command is not looked for.
pub proof fn law_relative_paths_begin_at_the_root(root: Seq<char>, path: Seq<char>)
    ensures
        command_path(root, "./"@ + path) == Some(joined(root, path)),
        cwd_path(root, "./"@ + path) == Some(joined(root, path)),
        !"./"@.is_prefix_of(path) ==> command_path(root, path) is None,
        !"./"@.is_prefix_of(path) && path != "${PLUGIN_ROOT}"@ && !"${PLUGIN_ROOT}/"@.is_prefix_of(
            path,
        ) ==> cwd_path(root, path) is None,
{
    let n = "./"@.len() as int;
    let whole = "./"@ + path;
    assert(whole.subrange(0, n) =~= "./"@);
    assert(whole.skip(n) =~= path);
}

} // verus!
